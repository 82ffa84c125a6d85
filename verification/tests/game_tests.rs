use rustycast::fixed::FX_ONE;
use rustycast::game::{Game, SPEED};
use rustycast::input::{InputState, Key};
use rustycast::math::Vec2;
use rustycast::state::{cmp, State};
use rustycast::world::{temp, SectorIndex};

fn fresh_game() -> Game {
    Game {
        sector: SectorIndex(0),
        pos: Vec2::new(0, 0),
        face_angle: 0,
        look_angle: 0,
        show_map: false,
        t: 0,
    }
}

#[test]
fn step_moves_forward_along_facing() {
    let world = temp();
    let mut game = fresh_game();
    let mut input = InputState::new();
    input.key_down(Key::Forward);
    game.step(&world, &input);
    // Facing angle zero points along -y; one step covers SPEED units.
    assert_eq!(game.pos, Vec2::new(0, -SPEED));
    assert_eq!(game.sector, SectorIndex(0));
    assert!(!game.show_map);
}

#[test]
fn step_strafes_and_backs_up() {
    let world = temp();
    let mut game = fresh_game();
    let mut input = InputState::new();
    input.key_down(Key::Back);
    game.step(&world, &input);
    assert_eq!(game.pos, Vec2::new(0, SPEED));

    let mut game2 = fresh_game();
    let mut input2 = InputState::new();
    input2.key_down(Key::Right);
    game2.step(&world, &input2);
    // Strafing right at facing zero moves along +x... the y step uses
    // the same truncated product, so x = cos * SPEED exactly.
    assert_eq!(game2.pos, Vec2::new(SPEED, 0));
}

#[test]
fn step_turns_with_the_mouse() {
    let world = temp();
    let mut game = fresh_game();
    let mut input = InputState::new();
    input.set_mouse(50000, 0);
    game.step(&world, &input);
    assert_eq!(game.face_angle, 100);
    // A full-turn surplus wraps.
    let mut game2 = fresh_game();
    game2.face_angle = 411770;
    let mut input2 = InputState::new();
    input2.set_mouse(5000, 0);
    game2.step(&world, &input2);
    assert_eq!(game2.face_angle, 6);
}

#[test]
fn step_clamps_the_look_angle() {
    let world = temp();
    let mut game = fresh_game();
    let mut input = InputState::new();
    input.set_mouse(0, 268435455);
    game.step(&world, &input);
    assert_eq!(game.look_angle, 120 * FX_ONE);
}

#[test]
fn step_crosses_a_portal() {
    let world = temp();
    let mut game = fresh_game();
    // Just south of the first alcove's portal wall (y = -25), facing
    // half a turn away from -y, so walking forward moves toward +y,
    // across the portal.
    game.pos = Vec2::new(-1146880, -1640000);
    game.face_angle = 205887;
    let mut input = InputState::new();
    input.key_down(Key::Forward);
    game.step(&world, &input);
    assert_eq!(game.sector, SectorIndex(1));
}

#[test]
fn show_map_follows_the_key() {
    let world = temp();
    let mut game = fresh_game();
    let mut input = InputState::new();
    input.key_down(Key::ShowMap);
    game.step(&world, &input);
    assert!(game.show_map);
    input.key_up(Key::ShowMap);
    game.step(&world, &input);
    assert!(!game.show_map);
}

#[test]
fn input_records_keys_without_duplicates() {
    let mut input = InputState::new();
    assert!(!input.has_key(Key::Forward));
    input.key_down(Key::Forward);
    input.key_down(Key::Forward);
    input.key_down(Key::Left);
    assert!(input.has_key(Key::Forward));
    assert!(input.has_key(Key::Left));
    assert_eq!(input.keys_down.len(), 2);
    input.key_up(Key::Forward);
    assert!(!input.has_key(Key::Forward));
    assert!(input.has_key(Key::Left));
}

#[test]
fn input_clear_mouse_keeps_vertical() {
    let mut input = InputState::new();
    input.set_mouse(100, 200);
    input.clear_mouse();
    assert_eq!(input.mouse_dx(), 0);
    assert_eq!(input.mouse_dy(), 200);
}

#[test]
fn state_pattern_and_counter() {
    let mut st = State { t: 0 };
    st.step();
    assert_eq!(st.t, 1);
    // distance of (3, 4) from the origin is 5.
    let st2 = State { t: 2 };
    assert_eq!(st2.get_color(3, 4), (5, 32, 14));
    let mut pixels = vec![0u8; 3 * 4 * 2];
    st2.draw(&mut pixels, 4, 2);
    // Pixel (3, 1) lands at byte 3 * (4 * 1 + 3) = 21, stored
    // blue-green-red.
    let (r, g, b) = st2.get_color(3, 1);
    assert_eq!(&pixels[21..24], &[b, g, r]);
}

#[test]
fn cmp_orders_integers() {
    assert_eq!(cmp(1, 2), core::cmp::Ordering::Less);
    assert_eq!(cmp(2, 1), core::cmp::Ordering::Greater);
    assert_eq!(cmp(3, 3), core::cmp::Ordering::Equal);
}

#[test]
fn wall_map_has_twelve_segments() {
    let m = rustycast::map::temp_map();
    assert_eq!(m.walls.len(), 12);
    assert_eq!(m.walls[0].a, Vec2::new(-40 * FX_ONE, -40 * FX_ONE));
    assert_eq!(m.walls[0].b, Vec2::new(40 * FX_ONE, -40 * FX_ONE));
}
