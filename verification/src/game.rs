//! The viewer state and its per-frame update: mouse-driven turning and
//! looking, key-driven movement, and portal-crossing sector changes.

use vstd::prelude::*;

verus! {

use crate::fixed::{fx_mul_spec, fx_clamp, tdiv};
use crate::fixed::{fx_mul, sin_fx, cos_fx, sin_fx_spec, cos_fx_spec, tdiv64, clamp64};
use crate::math::{Vec2, LineSeg, v2_bounded};
use crate::world::{World, Sector, SectorIndex, Wall, world_wf, crossed_portal_spec, wall_ok,
    sector_ok};
use crate::input::{InputState, Key, input_wf};

/// Largest viewer coordinate magnitude: the world's own coordinate
/// limit (4096 units); movement clamps to this range.
pub const POS_LIM: i64 = 0x1000_0000;

/// Largest magnitude of the vertical look offset (120 pixels).
pub const LOOK_LIM: i64 = 7864320;

/// Movement speed: 0.3 world units per step.
pub const SPEED: i64 = 19661;

/// The viewer: current sector, position, facing and look angles, the
/// overhead-map toggle, and a running time counter.
#[derive(Clone, Copy, Debug)]
pub struct Game {
    pub sector: SectorIndex,
    pub pos: Vec2,
    pub face_angle: i64,
    pub look_angle: i64,
    pub show_map: bool,
    pub t: i64,
}

/// The viewer invariant relative to a world: a real sector, a bounded
/// position, a wrapped facing angle and a clamped look angle.
pub open spec fn game_wf(g: Game, secs: Seq<Sector>) -> bool {
    &&& g.sector.0 < secs.len()
    &&& v2_bounded(g.pos, POS_LIM as int)
    &&& -411774 < g.face_angle < 411774
    &&& -LOOK_LIM <= g.look_angle <= LOOK_LIM
}

/// An angle reduced to `(-FX_TAU, FX_TAU)`, preserving its sign.
pub open spec fn wrap_angle_spec(a: int) -> int {
    if a >= 0 {
        a % 411774
    } else {
        -((-a) % 411774)
    }
}

/// One key-driven movement: `para` and `perp` (fixed-point, each -1,
/// 0 or 1 in the caller) select motion along and across the facing
/// direction; the position advances by `SPEED` scaled accordingly
/// (clamped to the world's coordinate range), and the sector follows
/// any portal the movement segment crosses.
pub open spec fn do_move_spec(
    secs: Seq<Sector>,
    sector: SectorIndex,
    pos: Vec2,
    face: int,
    para: int,
    perp: int,
) -> (SectorIndex, Vec2) {
    let s = fx_mul_spec(SPEED as int, sin_fx_spec(face));
    let c = fx_mul_spec(SPEED as int, cos_fx_spec(face));
    let mx = fx_mul_spec(s, para) + fx_mul_spec(c, perp);
    let my = fx_mul_spec(s, perp) - fx_mul_spec(c, para);
    let np = Vec2 {
        x: fx_clamp(pos.x + mx, -POS_LIM as int, POS_LIM as int) as i64,
        y: fx_clamp(pos.y + my, -POS_LIM as int, POS_LIM as int) as i64,
    };
    let walls = secs[sector.0 as int].walls@;
    let crossed = crossed_portal_spec(walls, LineSeg { a: pos, b: np }, walls.len() as int);
    (
        match crossed {
            Some(ns) => ns,
            None => sector,
        },
        np,
    )
}

/// A crossed portal leads to a sector the world really has.
proof fn lemma_crossed_portal_valid(secs: Seq<Sector>, walls: Seq<Wall>, seg: LineSeg, n: int)
    requires
        0 <= n <= walls.len(),
        forall|i: int| 0 <= i < walls.len() ==> wall_ok(secs, #[trigger] walls[i]),
    ensures
        crossed_portal_spec(walls, seg, n) matches Some(s) ==> s.0 < secs.len(),
    decreases n,
{
    if n > 0 {
        lemma_crossed_portal_valid(secs, walls, seg, n - 1);
    }
}

impl Game {
    /// Advance the viewer one frame: turn by the mouse, move by the
    /// held keys (forward, back, and the two strafe directions, in
    /// that order), follow portals, toggle the overhead map.
    pub fn step(&mut self, world: &World, input: &InputState)
        requires
            world_wf(world.sectors@),
            game_wf(*old(self), world.sectors@),
            input_wf(*input),
            -0x4000_0000_0000_0000 < old(self).t < 0x4000_0000_0000_0000,
        ensures
            game_wf(*final(self), world.sectors@),
            final(self).face_angle == wrap_angle_spec(
                old(self).face_angle + tdiv(input.mouse_dx as int, 500),
            ),
            final(self).look_angle == fx_clamp(
                old(self).look_angle + tdiv(input.mouse_dy as int, 2),
                -LOOK_LIM as int,
                LOOK_LIM as int,
            ),
            final(self).show_map == input.keys_down@.contains(Key::ShowMap),
            final(self).t == old(self).t + 1311,
            ({
                let secs = world.sectors@;
                let fa = wrap_angle_spec(old(self).face_angle + tdiv(input.mouse_dx as int, 500));
                let st0 = (old(self).sector, old(self).pos);
                let st1 = if input.keys_down@.contains(Key::Forward) {
                    do_move_spec(secs, st0.0, st0.1, fa, 65536, 0)
                } else {
                    st0
                };
                let st2 = if input.keys_down@.contains(Key::Back) {
                    do_move_spec(secs, st1.0, st1.1, fa, -65536, 0)
                } else {
                    st1
                };
                let st3 = if input.keys_down@.contains(Key::Left) {
                    do_move_spec(secs, st2.0, st2.1, fa, 0, -65536)
                } else {
                    st2
                };
                let st4 = if input.keys_down@.contains(Key::Right) {
                    do_move_spec(secs, st3.0, st3.1, fa, 0, 65536)
                } else {
                    st3
                };
                final(self).sector == st4.0 && final(self).pos == st4.1
            }),
    {
        self.face_angle = wrap_angle(self.face_angle + tdiv64(input.mouse_dx(), 500));
        self.look_angle = clamp64(
            self.look_angle + tdiv64(input.mouse_dy(), 2),
            -LOOK_LIM,
            LOOK_LIM,
        );

        if input.has_key(Key::Forward) {
            self.do_move(world, 65536, 0);
        }
        if input.has_key(Key::Back) {
            self.do_move(world, -65536, 0);
        }
        if input.has_key(Key::Left) {
            self.do_move(world, 0, -65536);
        }
        if input.has_key(Key::Right) {
            self.do_move(world, 0, 65536);
        }

        self.show_map = input.has_key(Key::ShowMap);
        self.t = self.t + 1311;
    }

    /// Move along (`para`) and across (`perp`) the facing direction.
    fn do_move(&mut self, world: &World, para: i64, perp: i64)
        requires
            world_wf(world.sectors@),
            game_wf(*old(self), world.sectors@),
            -65536 <= para <= 65536,
            -65536 <= perp <= 65536,
        ensures
            game_wf(*final(self), world.sectors@),
            ({
                let moved = do_move_spec(
                    world.sectors@,
                    old(self).sector,
                    old(self).pos,
                    old(self).face_angle as int,
                    para as int,
                    perp as int,
                );
                final(self).sector == moved.0 && final(self).pos == moved.1
            }),
            final(self).face_angle == old(self).face_angle,
            final(self).look_angle == old(self).look_angle,
            final(self).show_map == old(self).show_map,
            final(self).t == old(self).t,
    {
        let s: i64 = fx_mul(SPEED, sin_fx(self.face_angle));
        let c: i64 = fx_mul(SPEED, cos_fx(self.face_angle));
        proof {
            crate::fixed::lemma_tdiv_abs_le(
                SPEED as int * sin_fx_spec(self.face_angle as int),
                65536,
                SPEED as int,
            );
            crate::fixed::lemma_tdiv_abs_le(
                SPEED as int * cos_fx_spec(self.face_angle as int),
                65536,
                SPEED as int,
            );
            assert(crate::fixed::fx_abs(SPEED as int * sin_fx_spec(self.face_angle as int)) <= 65536
                * SPEED) by (nonlinear_arith)
                requires
                    -65536 <= sin_fx_spec(self.face_angle as int) <= 65536,
            ;
            assert(crate::fixed::fx_abs(SPEED as int * cos_fx_spec(self.face_angle as int)) <= 65536
                * SPEED) by (nonlinear_arith)
                requires
                    -65536 <= cos_fx_spec(self.face_angle as int) <= 65536,
            ;
        }
        proof {
            assert(crate::fixed::fx_abs(s as int * para as int) <= 65536 * SPEED)
                by (nonlinear_arith)
                requires
                    -SPEED <= s <= SPEED,
                    -65536 <= para <= 65536,
            ;
            assert(crate::fixed::fx_abs(s as int * perp as int) <= 65536 * SPEED)
                by (nonlinear_arith)
                requires
                    -SPEED <= s <= SPEED,
                    -65536 <= perp <= 65536,
            ;
            assert(crate::fixed::fx_abs(c as int * para as int) <= 65536 * SPEED)
                by (nonlinear_arith)
                requires
                    -SPEED <= c <= SPEED,
                    -65536 <= para <= 65536,
            ;
            assert(crate::fixed::fx_abs(c as int * perp as int) <= 65536 * SPEED)
                by (nonlinear_arith)
                requires
                    -SPEED <= c <= SPEED,
                    -65536 <= perp <= 65536,
            ;
            crate::fixed::lemma_tdiv_abs_le(s as int * para as int, 65536, SPEED as int);
            crate::fixed::lemma_tdiv_abs_le(s as int * perp as int, 65536, SPEED as int);
            crate::fixed::lemma_tdiv_abs_le(c as int * para as int, 65536, SPEED as int);
            crate::fixed::lemma_tdiv_abs_le(c as int * perp as int, 65536, SPEED as int);
        }
        let mx: i64 = fx_mul(s, para) + fx_mul(c, perp);
        let my: i64 = fx_mul(s, perp) - fx_mul(c, para);
        let new_pos: Vec2 = Vec2 {
            x: clamp64(self.pos.x + mx, -POS_LIM, POS_LIM),
            y: clamp64(self.pos.y + my, -POS_LIM, POS_LIM),
        };
        proof {
            assert(sector_ok(world.sectors@, world.sectors@[self.sector.0 as int]));
            lemma_crossed_portal_valid(
                world.sectors@,
                world.sectors@[self.sector.0 as int].walls@,
                LineSeg { a: self.pos, b: new_pos },
                world.sectors@[self.sector.0 as int].walls@.len() as int,
            );
        }
        self.sector = world.move_object(self.sector, self.pos, new_pos);
        self.pos = new_pos;
    }
}

/// Reduce an angle into `(-FX_TAU, FX_TAU)`, preserving its sign.
fn wrap_angle(a: i64) -> (r: i64)
    requires
        -0x4000_0000_0000_0000 < a < 0x4000_0000_0000_0000,
    ensures
        r == wrap_angle_spec(a as int),
        -411774 < r < 411774,
{
    if a < 0 {
        -((((-a) as u64) % 411774) as i64)
    } else {
        ((a as u64) % 411774) as i64
    }
}

} // verus!
