//! A flat wall list, as the overhead-map view consumes it.

use vstd::prelude::*;

verus! {

use crate::math::{LineSeg, Vec2, seg_bounded};
use crate::fixed::FX_LIM;

/// A bare collection of wall segments, with no sector structure.
#[derive(Debug)]
pub struct WallMap {
    pub walls: Vec<LineSeg>,
}

/// A small demonstration map: a square room with two square pillars.
pub fn temp_map() -> (r: WallMap)
    ensures
        r.walls@.len() == 12,
        forall|i: int| 0 <= i < r.walls@.len() ==> seg_bounded(#[trigger] r.walls@[i], FX_LIM as int),
        r.walls@[0] == (LineSeg { a: Vec2 { x: -2621440i64, y: -2621440i64 }, b: Vec2 { x: 2621440, y: -2621440i64 } }),
        r.walls@[1] == (LineSeg { a: Vec2 { x: 2621440, y: -2621440i64 }, b: Vec2 { x: 2621440, y: 2621440 } }),
        r.walls@[2] == (LineSeg { a: Vec2 { x: 2621440, y: 2621440 }, b: Vec2 { x: -2621440i64, y: 2621440 } }),
        r.walls@[3] == (LineSeg { a: Vec2 { x: -2621440i64, y: 2621440 }, b: Vec2 { x: -2621440i64, y: -2621440i64 } }),
        r.walls@[4] == (LineSeg { a: Vec2 { x: -983040i64, y: -983040i64 }, b: Vec2 { x: -655360i64, y: -983040i64 } }),
        r.walls@[5] == (LineSeg { a: Vec2 { x: -655360i64, y: -983040i64 }, b: Vec2 { x: -655360i64, y: -655360i64 } }),
        r.walls@[6] == (LineSeg { a: Vec2 { x: -655360i64, y: -655360i64 }, b: Vec2 { x: -983040i64, y: -655360i64 } }),
        r.walls@[7] == (LineSeg { a: Vec2 { x: -983040i64, y: -655360i64 }, b: Vec2 { x: -983040i64, y: -983040i64 } }),
        r.walls@[8] == (LineSeg { a: Vec2 { x: 983040, y: 983040 }, b: Vec2 { x: 655360, y: 983040 } }),
        r.walls@[9] == (LineSeg { a: Vec2 { x: 655360, y: 983040 }, b: Vec2 { x: 655360, y: 655360 } }),
        r.walls@[10] == (LineSeg { a: Vec2 { x: 655360, y: 655360 }, b: Vec2 { x: 983040, y: 655360 } }),
        r.walls@[11] == (LineSeg { a: Vec2 { x: 983040, y: 655360 }, b: Vec2 { x: 983040, y: 983040 } }),
{
    let mut walls: Vec<LineSeg> = Vec::new();
    walls.push(LineSeg::new(-2621440, -2621440, 2621440, -2621440));
    walls.push(LineSeg::new(2621440, -2621440, 2621440, 2621440));
    walls.push(LineSeg::new(2621440, 2621440, -2621440, 2621440));
    walls.push(LineSeg::new(-2621440, 2621440, -2621440, -2621440));
    walls.push(LineSeg::new(-983040, -983040, -655360, -983040));
    walls.push(LineSeg::new(-655360, -983040, -655360, -655360));
    walls.push(LineSeg::new(-655360, -655360, -983040, -655360));
    walls.push(LineSeg::new(-983040, -655360, -983040, -983040));
    walls.push(LineSeg::new(983040, 983040, 655360, 983040));
    walls.push(LineSeg::new(655360, 983040, 655360, 655360));
    walls.push(LineSeg::new(655360, 655360, 983040, 655360));
    walls.push(LineSeg::new(983040, 655360, 983040, 983040));
    WallMap { walls }
}

} // verus!
