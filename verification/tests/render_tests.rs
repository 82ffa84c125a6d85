use rustycast::fixed::FX_ONE;
use rustycast::game::Game;
use rustycast::math::{LineSeg, Vec2};
use rustycast::render::{
    brightness_from_dist, get_px, PixelFormat, RenderConfig, RenderContext,
};
use rustycast::world::{Sector, SectorIndex, SectorInfo, Wall, World};

fn unit(v: i64) -> i64 {
    v * FX_ONE
}

fn rgb_ctx(w: usize, h: usize) -> RenderContext {
    RenderContext { pixels: vec![7u8; 3 * w * h], width: w, height: h, format: PixelFormat::Rgb }
}

#[test]
fn put_px_writes_only_its_pixel() {
    let mut ctx = rgb_ctx(4, 4);
    ctx.put_px(1, 2, 10, 20, 30);
    let base = 3 * (4 * 2 + 1);
    assert_eq!(&ctx.pixels[base..base + 3], &[10, 20, 30]);
    assert!(ctx.pixels[..base].iter().all(|&b| b == 7));
    assert!(ctx.pixels[base + 3..].iter().all(|&b| b == 7));
}

#[test]
fn put_px_argb_sets_alpha() {
    let mut ctx = RenderContext {
        pixels: vec![0u8; 4 * 4],
        width: 2,
        height: 2,
        format: PixelFormat::Argb,
    };
    ctx.put_px(1, 0, 10, 20, 30);
    assert_eq!(&ctx.pixels[4..8], &[0xFF, 10, 20, 30]);
}

#[test]
fn clear_blacks_everything() {
    let mut ctx = rgb_ctx(5, 3);
    ctx.clear();
    assert!(ctx.pixels.iter().all(|&b| b == 0));
}

#[test]
fn get_px_reads_triples() {
    let tex: Vec<u8> = (0..24).collect();
    // Pixel (1, 1) of a 2-wide texture starts at byte 9.
    assert_eq!(get_px(&tex, 1, 1, 2), (9, 10, 11));
}

#[test]
fn column_range_clips() {
    let ctx = rgb_ctx(4, 10);
    assert_eq!(ctx.column_range(2, 8), (2, 8));
    assert_eq!(ctx.column_range(-5, 8), (0, 8));
    assert_eq!(ctx.column_range(2, 15), (2, 10));
    assert_eq!(ctx.column_range(-5, 15), (0, 10));
    assert_eq!(ctx.column_range(12, 15), (0, 0));
    assert_eq!(ctx.column_range(-5, -1), (0, 0));
}

#[test]
fn brightness_falls_off_and_clamps() {
    // Two units away or closer: full brightness.
    assert_eq!(brightness_from_dist(unit(10)), FX_ONE);
    // Forty units: 20 / 40 = one half.
    assert_eq!(brightness_from_dist(unit(40)), FX_ONE / 2);
    // Behind the eye: dark.
    assert_eq!(brightness_from_dist(0), 0);
    assert_eq!(brightness_from_dist(-unit(3)), 0);
}

#[test]
fn draw_seg_paints_only_its_colour() {
    let mut ctx = rgb_ctx(32, 32);
    ctx.clear();
    ctx.draw_seg(LineSeg::new(unit(-8), 0, unit(8), 0), 1, 2, 3);
    let mut painted = 0;
    for px in ctx.pixels.chunks(3) {
        if px != [0, 0, 0] {
            assert_eq!(px, [1, 2, 3]);
            painted += 1;
        }
    }
    assert!(painted >= 8, "painted {painted}");
}

/// A single closed room whose wall spans elevations 0..10 with the eye
/// at height 5: the painted span must be vertically centred.
fn facing_wall_world() -> World {
    let sector = Sector {
        info: SectorInfo { floor_elev: 0, ceiling_elev: unit(10) },
        walls: vec![
            Wall::new(unit(-50), unit(-30), unit(50), unit(-30), None),
            Wall::new(unit(50), unit(-30), unit(50), unit(60), None),
            Wall::new(unit(50), unit(60), unit(-50), unit(60), None),
            Wall::new(unit(-50), unit(60), unit(-50), unit(-30), None),
        ],
    };
    World::new(vec![sector]).unwrap()
}

fn wall_rows_in_column(ctx: &RenderContext, x: usize) -> Vec<usize> {
    let mut rows = Vec::new();
    for y in 0..ctx.height {
        let base = 3 * (ctx.width * y + x);
        let (r, g, b) = (ctx.pixels[base], ctx.pixels[base + 1], ctx.pixels[base + 2]);
        // Wall pixels are blue-grey (r == g, blue dominant); flats are
        // pure green and untouched pixels pure black.
        if r == g && b > 0 && b >= r {
            rows.push(y);
        }
    }
    rows
}

fn render_at(world: &World, pos: Vec2) -> RenderContext {
    let mut ctx = rgb_ctx(320, 240);
    ctx.clear();
    let game = Game {
        sector: SectorIndex(0),
        pos,
        face_angle: 0,
        look_angle: 0,
        show_map: false,
        t: 0,
    };
    let cfg = RenderConfig::default();
    let sky = vec![0u8; 3 * 320 * 240];
    game.render(world, &cfg, &sky, &mut ctx);
    ctx
}

#[test]
fn rendered_wall_span_is_centred() {
    let world = facing_wall_world();
    let ctx = render_at(&world, Vec2::new(0, 0));
    let rows = wall_rows_in_column(&ctx, 160);
    assert!(!rows.is_empty());
    let lo = *rows.first().unwrap() as i64;
    let hi = *rows.last().unwrap() as i64;
    // Eye height 5 is the wall's mid-elevation, so the span must be
    // symmetric about the screen centre row.
    assert!((lo + hi - 239).abs() <= 3, "span {lo}..{hi}");
}

#[test]
fn rendered_wall_grows_as_viewer_approaches() {
    let world = facing_wall_world();
    let far = wall_rows_in_column(&render_at(&world, Vec2::new(0, 0)), 160).len();
    let near = wall_rows_in_column(&render_at(&world, Vec2::new(0, unit(-10))), 160).len();
    let nearer = wall_rows_in_column(&render_at(&world, Vec2::new(0, unit(-20))), 160).len();
    assert!(far > 0);
    assert!(near > far, "near {near} far {far}");
    assert!(nearer > near, "nearer {nearer} near {near}");
}

#[test]
fn empty_cast_columns_get_fallback_fill() {
    // Walls two thousand units away: the ray's fixed reach finds
    // nothing, so every column gets the defined fallback, sky above
    // the horizon and a plain floor tone below it.
    let far = Sector {
        info: SectorInfo { floor_elev: 0, ceiling_elev: unit(10) },
        walls: vec![
            Wall::new(unit(-2000), unit(-2000), unit(2000), unit(-2000), None),
            Wall::new(unit(2000), unit(-2000), unit(2000), unit(2000), None),
            Wall::new(unit(2000), unit(2000), unit(-2000), unit(2000), None),
            Wall::new(unit(-2000), unit(2000), unit(-2000), unit(-2000), None),
        ],
    };
    let world = World::new(vec![far]).unwrap();
    let mut ctx = rgb_ctx(320, 240);
    let game = Game {
        sector: SectorIndex(0),
        pos: Vec2::new(0, 0),
        face_angle: 0,
        look_angle: 0,
        show_map: false,
        t: 0,
    };
    let cfg = RenderConfig::default();
    let mut sky = vec![0u8; 3 * 320 * 240];
    for (i, b) in sky.iter_mut().enumerate() {
        *b = (i % 251) as u8;
    }
    game.render(&world, &cfg, &sky, &mut ctx);
    // Column 10 is clear of the crosshair.
    for y in 0..120usize {
        let base = 3 * (320 * y + 10);
        assert_eq!(&ctx.pixels[base..base + 3], &sky[base..base + 3], "row {y}");
    }
    for y in 120..240usize {
        let base = 3 * (320 * y + 10);
        assert_eq!(&ctx.pixels[base..base + 3], &[0, 64, 0], "row {y}");
    }
}

#[test]
fn overhead_map_marks_the_viewer() {
    let world = rustycast::world::temp();
    let mut ctx = rgb_ctx(64, 64);
    let game = Game {
        sector: SectorIndex(0),
        pos: Vec2::new(0, 0),
        face_angle: 0,
        look_angle: 0,
        show_map: true,
        t: 0,
    };
    let cfg = RenderConfig::default();
    let sky = vec![0u8; 3 * 64 * 64];
    game.render(&world, &cfg, &sky, &mut ctx);
    let base = 3 * (64 * 32 + 32);
    assert_eq!(&ctx.pixels[base..base + 3], &[0xFF, 0, 0]);
}
