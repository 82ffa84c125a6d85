//! The sector/portal world model and the ray caster.
//!
//! A world is a list of convex sectors. Each sector has floor and
//! ceiling elevations and an ordered list of walls; a wall may carry a
//! portal reference to the mirrored wall of an adjacent sector. The
//! structural invariants (index validity, portal mirroring, elevation
//! order, coordinate bounds) are checked once, when the world is built;
//! the ray caster and movement query rely on them and are verified
//! never to index out of bounds or overflow.

use vstd::prelude::*;

verus! {

use crate::fixed::{fx_mul_spec, fx_abs};
use crate::fixed::{fx_mul, sin_fx, cos_fx, sin_fx_spec, cos_fx_spec};
use crate::fixed::FX_LIM;
use crate::math::{Vec2, LineSeg, v2_bounded, seg_bounded, v2_len_spec, seg_at_spec,
    seg_intersect_spec};
use vstd::arithmetic::mul::lemma_mul_upper_bound;

/// Largest floor/ceiling elevation magnitude the world accepts (64 units).
pub const ELEV_LIM: i64 = 0x40_0000;

/// How far a cast ray reaches, in world units.
pub const RAY_REACH: i64 = 1000;

/// Portal-hop budget of a single ray cast: a traversal that crosses
/// more portals than this is cut short instead of looping forever.
pub const MAX_PORTAL_HOPS: usize = 64;

/// Index of a sector within a world.
#[derive(Clone, Copy, PartialEq, Eq, Structural, Debug)]
pub struct SectorIndex(pub usize);

/// Index of a wall within a sector.
#[derive(Clone, Copy, PartialEq, Eq, Structural, Debug)]
pub struct WallIndex(pub usize);

/// Floor and ceiling elevations of a sector, fixed-point.
#[derive(Clone, Copy, PartialEq, Eq, Structural, Debug)]
pub struct SectorInfo {
    pub floor_elev: i64,
    pub ceiling_elev: i64,
}

/// A wall: a boundary segment, optionally a portal into another sector.
#[derive(Clone, Copy, Debug)]
pub struct Wall {
    pub seg: LineSeg,
    pub portal: Option<(SectorIndex, WallIndex)>,
}

/// A convex region: elevations plus its ordered boundary walls.
#[derive(Debug)]
pub struct Sector {
    pub info: SectorInfo,
    pub walls: Vec<Wall>,
}

/// An immutable, validated collection of sectors.
#[derive(Debug)]
pub struct World {
    pub sectors: Vec<Sector>,
}

/// One surface met by a ray, nearest first: the texture coordinate
/// along the wall, the hit point, the sector the ray travelled through,
/// and the sector beyond the wall if it is a portal.
#[derive(Clone, Copy, Debug)]
pub struct RayCastResult {
    pub along: i64,
    pub hit_pos: Vec2,
    pub in_info: SectorInfo,
    pub out_info: Option<SectorInfo>,
}

/// The defect a world construction can be rejected for.
#[derive(Clone, Copy, PartialEq, Eq, Structural, Debug)]
pub enum WorldError {
    /// The world has no sectors at all.
    Empty,
    /// A sector's floor is not strictly below its ceiling.
    ElevationOrder,
    /// An elevation exceeds `ELEV_LIM`.
    ElevationRange,
    /// A wall endpoint exceeds `FX_LIM`.
    CoordinateRange,
    /// A portal names a sector that does not exist.
    PortalSector,
    /// A portal names a wall its target sector does not have.
    PortalWall,
    /// A portal's target wall is not the mirror image of its own wall.
    PortalMirror,
}

/// Two segments whose endpoints coincide, in either order.
pub open spec fn mirrored(s1: LineSeg, s2: LineSeg) -> bool {
    ||| (s1.a == s2.a && s1.b == s2.b)
    ||| (s1.a == s2.b && s1.b == s2.a)
}

/// A single wall is acceptable within the world `secs`.
pub open spec fn wall_ok(secs: Seq<Sector>, w: Wall) -> bool {
    &&& seg_bounded(w.seg, FX_LIM as int)
    &&& match w.portal {
        Some(p) => {
            &&& (p.0).0 < secs.len()
            &&& (p.1).0 < secs[(p.0).0 as int].walls@.len()
            &&& mirrored(w.seg, secs[(p.0).0 as int].walls@[(p.1).0 as int].seg)
        },
        None => true,
    }
}

/// A single sector is acceptable within the world `secs`.
pub open spec fn sector_ok(secs: Seq<Sector>, s: Sector) -> bool {
    &&& s.info.floor_elev < s.info.ceiling_elev
    &&& -ELEV_LIM <= s.info.floor_elev <= ELEV_LIM
    &&& -ELEV_LIM <= s.info.ceiling_elev <= ELEV_LIM
    &&& forall|i: int| 0 <= i < s.walls@.len() ==> wall_ok(secs, #[trigger] s.walls@[i])
}

/// The structural world invariant: at least one sector, and every
/// sector's elevations, wall coordinates and portal links in order.
///
/// Convexity of each sector's region is part of the world model but is
/// not captured here: a sector's wall list need not form one closed
/// boundary loop (the demonstration world's first sector also lists
/// the inner boundaries of its two pillars), so no wall-order test
/// decides it. None of the verified queries assumes it: the ray caster
/// and the movement query are specified and proved for arbitrary wall
/// lists. What convexity would buy — that following portal crossings
/// keeps the viewer's sector equal to the sector containing the
/// viewer — is likewise a semantic property of the regions, assumed by
/// callers of the renderer, not stated or relied on by any contract
/// here.
pub open spec fn world_wf(secs: Seq<Sector>) -> bool {
    &&& 1 <= secs.len()
    &&& forall|j: int| 0 <= j < secs.len() ==> sector_ok(secs, #[trigger] secs[j])
}

/// The defect of one wall, if any.
pub open spec fn wall_defect(secs: Seq<Sector>, w: Wall) -> Option<WorldError> {
    if !seg_bounded(w.seg, FX_LIM as int) {
        Some(WorldError::CoordinateRange)
    } else {
        match w.portal {
            None => None,
            Some(p) => {
                if (p.0).0 >= secs.len() {
                    Some(WorldError::PortalSector)
                } else if (p.1).0 >= secs[(p.0).0 as int].walls@.len() {
                    Some(WorldError::PortalWall)
                } else if !mirrored(w.seg, secs[(p.0).0 as int].walls@[(p.1).0 as int].seg) {
                    Some(WorldError::PortalMirror)
                } else {
                    None
                }
            },
        }
    }
}

/// The first defect among the first `n` walls of `walls`.
pub open spec fn walls_defect(secs: Seq<Sector>, walls: Seq<Wall>, n: int) -> Option<WorldError>
    decreases n,
{
    if n <= 0 {
        None
    } else {
        let prev = walls_defect(secs, walls, n - 1);
        if prev is Some {
            prev
        } else {
            wall_defect(secs, walls[n - 1])
        }
    }
}

/// The first defect of one sector: elevations first, then its walls.
pub open spec fn sector_defect(secs: Seq<Sector>, s: Sector) -> Option<WorldError> {
    if !(s.info.floor_elev < s.info.ceiling_elev) {
        Some(WorldError::ElevationOrder)
    } else if !(-ELEV_LIM <= s.info.floor_elev <= ELEV_LIM && -ELEV_LIM <= s.info.ceiling_elev
        <= ELEV_LIM) {
        Some(WorldError::ElevationRange)
    } else {
        walls_defect(secs, s.walls@, s.walls@.len() as int)
    }
}

/// The first defect among the first `n` sectors.
pub open spec fn sectors_defect(secs: Seq<Sector>, n: int) -> Option<WorldError>
    decreases n,
{
    if n <= 0 {
        None
    } else {
        let prev = sectors_defect(secs, n - 1);
        if prev is Some {
            prev
        } else {
            sector_defect(secs, secs[n - 1])
        }
    }
}

/// The first defect of a whole world, scanned in construction order.
pub open spec fn world_defect(secs: Seq<Sector>) -> Option<WorldError> {
    if secs.len() == 0 {
        Some(WorldError::Empty)
    } else {
        sectors_defect(secs, secs.len() as int)
    }
}

proof fn lemma_walls_defect_none(secs: Seq<Sector>, walls: Seq<Wall>, n: int)
    requires
        0 <= n <= walls.len(),
    ensures
        (walls_defect(secs, walls, n) is None) <==> (forall|i: int|
            0 <= i < n ==> wall_ok(secs, #[trigger] walls[i])),
    decreases n,
{
    if n > 0 {
        lemma_walls_defect_none(secs, walls, n - 1);
    }
}

proof fn lemma_sector_defect_none(secs: Seq<Sector>, s: Sector)
    ensures
        (sector_defect(secs, s) is None) <==> sector_ok(secs, s),
{
    lemma_walls_defect_none(secs, s.walls@, s.walls@.len() as int);
}

proof fn lemma_sectors_defect_none(secs: Seq<Sector>, n: int)
    requires
        0 <= n <= secs.len(),
    ensures
        (sectors_defect(secs, n) is None) <==> (forall|j: int|
            0 <= j < n ==> sector_ok(secs, #[trigger] secs[j])),
    decreases n,
{
    if n > 0 {
        lemma_sectors_defect_none(secs, n - 1);
        lemma_sector_defect_none(secs, secs[n - 1]);
    }
}

/// A world is well formed exactly when the defect scan finds nothing.
pub proof fn lemma_world_defect_none(secs: Seq<Sector>)
    ensures
        (world_defect(secs) is None) <==> world_wf(secs),
{
    if secs.len() > 0 {
        lemma_sectors_defect_none(secs, secs.len() as int);
    }
}

impl Wall {
    /// Build a wall from endpoint coordinates and an optional portal.
    pub fn new(x0: i64, y0: i64, x1: i64, y1: i64, portal: Option<(SectorIndex, WallIndex)>) -> (r:
        Wall)
        ensures
            r.seg.a.x == x0,
            r.seg.a.y == y0,
            r.seg.b.x == x1,
            r.seg.b.y == y1,
            r.portal == portal,
    {
        Wall { seg: LineSeg::new(x0, y0, x1, y1), portal }
    }
}

impl World {
    /// Validate `sectors` and build a world from them. Returns the world
    /// exactly when the data is well formed; otherwise the first defect
    /// found, scanning sectors in order, each sector's elevations before
    /// its walls.
    pub fn new(sectors: Vec<Sector>) -> (r: Result<World, WorldError>)
        ensures
            r matches Ok(w) ==> w.sectors@ == sectors@ && world_wf(sectors@),
            r matches Err(e) ==> world_defect(sectors@) == Some(e) && !world_wf(sectors@),
            world_wf(sectors@) <==> r is Ok,
    {
        proof {
            lemma_world_defect_none(sectors@);
        }
        if sectors.len() == 0 {
            return Err(WorldError::Empty);
        }
        let mut j: usize = 0;
        while j < sectors.len()
            invariant
                j <= sectors.len(),
                sectors_defect(sectors@, j as int) is None,
            decreases sectors.len() - j,
        {
            let s: &Sector = &sectors[j];
            if !(s.info.floor_elev < s.info.ceiling_elev) {
                proof {
                    reveal_defect_up_to(sectors@, j as int, Some(WorldError::ElevationOrder));
                }
                return Err(WorldError::ElevationOrder);
            }
            if !(-ELEV_LIM <= s.info.floor_elev && s.info.floor_elev <= ELEV_LIM && -ELEV_LIM
                <= s.info.ceiling_elev && s.info.ceiling_elev <= ELEV_LIM) {
                proof {
                    reveal_defect_up_to(sectors@, j as int, Some(WorldError::ElevationRange));
                }
                return Err(WorldError::ElevationRange);
            }
            let mut i: usize = 0;
            while i < s.walls.len()
                invariant
                    i <= s.walls.len(),
                    walls_defect(sectors@, s.walls@, i as int) is None,
                    s == &sectors@[j as int],
                    0 <= j < sectors@.len(),
                    s.info.floor_elev < s.info.ceiling_elev,
                    -ELEV_LIM <= s.info.floor_elev <= ELEV_LIM,
                    -ELEV_LIM <= s.info.ceiling_elev <= ELEV_LIM,
                    sectors_defect(sectors@, j as int) is None,
                decreases s.walls.len() - i,
            {
                let w: Wall = s.walls[i];
                let d: Option<WorldError> = check_wall(&sectors, &w);
                match d {
                    Some(e) => {
                        proof {
                            assert(walls_defect(sectors@, s.walls@, i as int + 1) == Some(e));
                            reveal_sector_defect(sectors@, sectors@[j as int], i as int + 1, Some(e));
                            reveal_defect_up_to(sectors@, j as int, Some(e));
                        }
                        return Err(e);
                    },
                    None => {
                        i = i + 1;
                    },
                }
            }
            proof {
                lemma_sector_step(sectors@, j as int);
            }
            j = j + 1;
        }
        Ok(World { sectors })
    }
}

/// The portal crossed by a movement along `move_seg`, among the first
/// `n` walls; when several walls are crossed, the last enumerated one
/// wins (a deterministic, order-dependent tie-break).
pub open spec fn crossed_portal_spec(walls: Seq<Wall>, move_seg: LineSeg, n: int) -> Option<
    SectorIndex,
>
    decreases n,
{
    if n <= 0 {
        None
    } else {
        let w = walls[n - 1];
        if seg_intersect_spec(move_seg, w.seg) is Some && w.portal is Some {
            Some(w.portal->Some_0.0)
        } else {
            crossed_portal_spec(walls, move_seg, n - 1)
        }
    }
}

/// A movement that crosses no wall of its sector keeps its sector.
pub proof fn lemma_move_keeps_sector(walls: Seq<Wall>, move_seg: LineSeg, n: int)
    requires
        0 <= n <= walls.len(),
        forall|i: int|
            0 <= i < n ==> seg_intersect_spec(move_seg, #[trigger] walls[i].seg) is None,
    ensures
        crossed_portal_spec(walls, move_seg, n) is None,
    decreases n,
{
    if n > 0 {
        lemma_move_keeps_sector(walls, move_seg, n - 1);
    }
}

/// A movement that crosses exactly one portal wall moves into that
/// portal's target sector.
pub proof fn lemma_move_single_crossing(walls: Seq<Wall>, move_seg: LineSeg, n: int, k: int)
    requires
        0 <= k < n <= walls.len(),
        seg_intersect_spec(move_seg, walls[k].seg) is Some,
        walls[k].portal is Some,
        forall|i: int|
            0 <= i < n && i != k ==> !(seg_intersect_spec(move_seg, #[trigger] walls[i].seg)
                is Some && walls[i].portal is Some),
    ensures
        crossed_portal_spec(walls, move_seg, n) == Some(walls[k].portal->Some_0.0),
    decreases n,
{
    if k < n - 1 {
        lemma_move_single_crossing(walls, move_seg, n - 1, k);
    }
}

impl World {
    /// The walls of the first sector, as the overhead-map view consumes them.
    pub fn get_walls(&self) -> (r: &Vec<Wall>)
        requires
            self.sectors@.len() > 0,
        ensures
            r@ == self.sectors@[0].walls@,
    {
        &self.sectors[0].walls
    }

    /// The floor elevation of a sector.
    pub fn get_elevation(&self, sector: SectorIndex) -> (r: i64)
        requires
            sector.0 < self.sectors@.len(),
        ensures
            r == self.sectors@[sector.0 as int].info.floor_elev,
    {
        self.sectors[sector.0].info.floor_elev
    }

    /// Move an object from `old_pos` to `new_pos` within `sector`: if
    /// the movement segment crosses a portal wall, the object changes
    /// sector to that portal's target (the last enumerated crossing
    /// wins); otherwise it stays where it was.
    pub fn move_object(&self, sector: SectorIndex, old_pos: Vec2, new_pos: Vec2) -> (r: SectorIndex)
        requires
            world_wf(self.sectors@),
            sector.0 < self.sectors@.len(),
            v2_bounded(old_pos, 0x2000_0000),
            v2_bounded(new_pos, 0x2000_0000),
        ensures
            ({
                let walls = self.sectors@[sector.0 as int].walls@;
                let move_seg = LineSeg { a: old_pos, b: new_pos };
                r == match crossed_portal_spec(walls, move_seg, walls.len() as int) {
                    Some(s) => s,
                    None => sector,
                }
            }),
    {
        let move_seg: LineSeg = LineSeg { a: old_pos, b: new_pos };
        let walls: &Vec<Wall> = &self.sectors[sector.0].walls;
        let ghost wseq = walls@;
        let mut found: Option<SectorIndex> = None;
        let mut i: usize = 0;
        proof {
            assert(sector_ok(self.sectors@, self.sectors@[sector.0 as int]));
        }
        while i < walls.len()
            invariant
                i <= walls.len(),
                wseq == walls@,
                walls@ == self.sectors@[sector.0 as int].walls@,
                sector_ok(self.sectors@, self.sectors@[sector.0 as int]),
                v2_bounded(old_pos, 0x2000_0000),
                v2_bounded(new_pos, 0x2000_0000),
                move_seg == (LineSeg { a: old_pos, b: new_pos }),
                found == crossed_portal_spec(wseq, move_seg, i as int),
            decreases walls.len() - i,
        {
            let w: Wall = walls[i];
            proof {
                assert(wall_ok(self.sectors@, wseq[i as int]));
            }
            let hit: Option<i64> = move_seg.intersects(w.seg);
            if hit.is_some() {
                match w.portal {
                    Some((si, _wi)) => {
                        found = Some(si);
                    },
                    None => {},
                }
            }
            i = i + 1;
        }
        match found {
            Some(s) => s,
            None => sector,
        }
    }
}

/// Squared raw distance between two points (no unit rescale: used only
/// for comparisons, so no precision is thrown away).
pub open spec fn dist_sqr_spec(p: Vec2, q: Vec2) -> int {
    (q.x - p.x) * (q.x - p.x) + (q.y - p.y) * (q.y - p.y)
}

/// The fixed-point length of a segment.
pub open spec fn seg_len_of(s: LineSeg) -> int {
    v2_len_spec(Vec2 { x: (s.b.x - s.a.x) as i64, y: (s.b.y - s.a.y) as i64 })
}

/// The ray segment from `pos` with direction offset `(dx, dy)`.
pub open spec fn ray_to(pos: Vec2, dx: int, dy: int) -> LineSeg {
    LineSeg { a: pos, b: Vec2 { x: (pos.x + dx) as i64, y: (pos.y + dy) as i64 } }
}

/// The wall hit by `ray` nearest to its origin, among the first `n`
/// walls, never the `skip` wall (the wall the traversal entered
/// through). Distances compare by raw squared length; the earliest
/// enumerated wall wins exact ties. Returns the wall index and the
/// intersection parameter along the wall.
pub open spec fn best_hit_spec(walls: Seq<Wall>, skip: Option<int>, ray: LineSeg, n: int) -> Option<
    (int, i64),
>
    decreases n,
{
    if n <= 0 {
        None
    } else {
        let prev = best_hit_spec(walls, skip, ray, n - 1);
        let i = n - 1;
        if skip == Some(i) {
            prev
        } else {
            match seg_intersect_spec(ray, walls[i].seg) {
                None => prev,
                Some(t) => match prev {
                    None => Some((i, t)),
                    Some(pr) => {
                        if dist_sqr_spec(ray.a, seg_at_spec(walls[i].seg, t as int)) < dist_sqr_spec(
                            ray.a,
                            seg_at_spec(walls[pr.0].seg, pr.1 as int),
                        ) {
                            Some((i, t))
                        } else {
                            prev
                        }
                    },
                },
            }
        }
    }
}

/// What `best_hit_spec` returns is a real hit, and it returns one
/// exactly when some eligible wall intersects the ray.
pub proof fn lemma_best_hit_valid(walls: Seq<Wall>, skip: Option<int>, ray: LineSeg, n: int)
    requires
        0 <= n <= walls.len(),
    ensures
        best_hit_spec(walls, skip, ray, n) matches Some(pr) ==> 0 <= pr.0 < n && skip != Some(pr.0)
            && seg_intersect_spec(ray, walls[pr.0].seg) == Some(pr.1),
        (best_hit_spec(walls, skip, ray, n) is Some) <==> exists|i: int|
            0 <= i < n && skip != Some(i) && (seg_intersect_spec(ray, #[trigger] walls[i].seg)
                is Some),
    decreases n,
{
    if n > 0 {
        lemma_best_hit_valid(walls, skip, ray, n - 1);
        let i = n - 1;
        if skip != Some(i) && seg_intersect_spec(ray, walls[i].seg) is Some {
            assert(0 <= i < n && skip != Some(i) && (seg_intersect_spec(ray, walls[i].seg)
                is Some));
        }
    }
}

/// The ordered trace of surfaces met by a ray cast from `pos` with
/// direction offset `(dx, dy)` inside sector `sec`, following portals,
/// never re-testing the wall just entered through (`skip`), and giving
/// up after `fuel` portal hops.
pub open spec fn cast_trace_spec(
    secs: Seq<Sector>,
    sec: int,
    skip: Option<int>,
    pos: Vec2,
    dx: int,
    dy: int,
    fuel: nat,
) -> Seq<RayCastResult>
    decreases fuel,
{
    if fuel == 0 {
        Seq::empty()
    } else {
        let walls = secs[sec].walls@;
        let ray = ray_to(pos, dx, dy);
        match best_hit_spec(walls, skip, ray, walls.len() as int) {
            None => Seq::empty(),
            Some(pr) => {
                let w = walls[pr.0];
                let hit = seg_at_spec(w.seg, pr.1 as int);
                let res = RayCastResult {
                    along: fx_mul_spec(seg_len_of(w.seg), pr.1 as int) as i64,
                    hit_pos: hit,
                    in_info: secs[sec].info,
                    out_info: match w.portal {
                        Some(p) => Some(secs[(p.0).0 as int].info),
                        None => None,
                    },
                };
                match w.portal {
                    None => seq![res],
                    Some(p) => seq![res] + cast_trace_spec(
                        secs,
                        (p.0).0 as int,
                        Some((p.1).0 as int),
                        hit,
                        dx,
                        dy,
                        (fuel - 1) as nat,
                    ),
                }
            },
        }
    }
}

/// A nonempty trace starts in the sector the cast started in.
pub proof fn lemma_trace_first(
    secs: Seq<Sector>,
    sec: int,
    skip: Option<int>,
    pos: Vec2,
    dx: int,
    dy: int,
    fuel: nat,
)
    ensures
        cast_trace_spec(secs, sec, skip, pos, dx, dy, fuel).len() > 0 ==> cast_trace_spec(
            secs,
            sec,
            skip,
            pos,
            dx,
            dy,
            fuel,
        )[0].in_info == secs[sec].info,
{
    if fuel > 0 {
        let walls = secs[sec].walls@;
        let ray = ray_to(pos, dx, dy);
        match best_hit_spec(walls, skip, ray, walls.len() as int) {
            None => {},
            Some(pr) => {},
        }
    }
}

/// Portal chaining: every adjacent pair of trace entries is linked,
/// the sector behind one hit being the sector the next hit is seen in.
pub proof fn lemma_trace_chained(
    secs: Seq<Sector>,
    sec: int,
    skip: Option<int>,
    pos: Vec2,
    dx: int,
    dy: int,
    fuel: nat,
)
    requires
        world_wf(secs),
        0 <= sec < secs.len(),
    ensures
        ({
            let tr = cast_trace_spec(secs, sec, skip, pos, dx, dy, fuel);
            forall|i: int|
                0 <= i && i + 1 < tr.len() ==> (#[trigger] tr[i]).out_info == Some(tr[i + 1].in_info)
        }),
    decreases fuel,
{
    let tr = cast_trace_spec(secs, sec, skip, pos, dx, dy, fuel);
    if fuel > 0 {
        let walls = secs[sec].walls@;
        let ray = ray_to(pos, dx, dy);
        lemma_best_hit_valid(walls, skip, ray, walls.len() as int);
        match best_hit_spec(walls, skip, ray, walls.len() as int) {
            None => {},
            Some(pr) => {
                assert(sector_ok(secs, secs[sec]));
                assert(wall_ok(secs, walls[pr.0]));
                let w = walls[pr.0];
                match w.portal {
                    None => {},
                    Some(p) => {
                        let nsec = (p.0).0 as int;
                        let hit = seg_at_spec(w.seg, pr.1 as int);
                        let rest = cast_trace_spec(
                            secs,
                            nsec,
                            Some((p.1).0 as int),
                            hit,
                            dx,
                            dy,
                            (fuel - 1) as nat,
                        );
                        lemma_trace_chained(
                            secs,
                            nsec,
                            Some((p.1).0 as int),
                            hit,
                            dx,
                            dy,
                            (fuel - 1) as nat,
                        );
                        lemma_trace_first(secs, nsec, Some((p.1).0 as int), hit, dx, dy, (fuel - 1) as nat);
                        assert forall|i: int| 0 <= i && i + 1 < tr.len() implies (#[trigger] tr[i]).out_info
                            == Some(tr[i + 1].in_info) by {
                            if i == 0 {
                                assert(tr[0].out_info == Some(secs[nsec].info));
                                assert(tr[1] == rest[0]);
                            } else {
                                assert(tr[i] == rest[i - 1]);
                                assert(tr[i + 1] == rest[i]);
                            }
                        }
                    },
                }
            },
        }
    }
}

/// Every entry of a trace carries values from the world: a hit point
/// on a bounded wall, a texture coordinate no longer than the wall,
/// and elevations of real sectors.
pub proof fn lemma_trace_values(
    secs: Seq<Sector>,
    sec: int,
    skip: Option<int>,
    pos: Vec2,
    dx: int,
    dy: int,
    fuel: nat,
)
    requires
        world_wf(secs),
        0 <= sec < secs.len(),
    ensures
        ({
            let tr = cast_trace_spec(secs, sec, skip, pos, dx, dy, fuel);
            forall|i: int|
                0 <= i < tr.len() ==> {
                    &&& v2_bounded((#[trigger] tr[i]).hit_pos, FX_LIM as int)
                    &&& 0 <= tr[i].along <= 0x8000_0000
                    &&& -ELEV_LIM <= tr[i].in_info.floor_elev < tr[i].in_info.ceiling_elev
                        <= ELEV_LIM
                    &&& tr[i].out_info matches Some(oi) ==> -ELEV_LIM <= oi.floor_elev
                        < oi.ceiling_elev <= ELEV_LIM
                }
        }),
    decreases fuel,
{
    let tr = cast_trace_spec(secs, sec, skip, pos, dx, dy, fuel);
    if fuel > 0 {
        let walls = secs[sec].walls@;
        let ray = ray_to(pos, dx, dy);
        lemma_best_hit_valid(walls, skip, ray, walls.len() as int);
        match best_hit_spec(walls, skip, ray, walls.len() as int) {
            None => {},
            Some(pr) => {
                assert(sector_ok(secs, secs[sec]));
                assert(wall_ok(secs, walls[pr.0]));
                let w = walls[pr.0];
                crate::math::lemma_intersect_t_range(ray, w.seg);
                crate::math::lemma_seg_at_bounded(w.seg, pr.1 as int, FX_LIM as int);
                let hit = seg_at_spec(w.seg, pr.1 as int);
                let n = ((w.seg.b.x - w.seg.a.x) * (w.seg.b.x - w.seg.a.x) + (w.seg.b.y
                    - w.seg.a.y) * (w.seg.b.y - w.seg.a.y)) as nat;
                let root = crate::fixed::isqrt_spec(n);
                assert(n <= 0x4000_0000_0000_0000) by (nonlinear_arith)
                    requires
                        -0x2000_0000 <= w.seg.b.x - w.seg.a.x <= 0x2000_0000,
                        -0x2000_0000 <= w.seg.b.y - w.seg.a.y <= 0x2000_0000,
                        n == ((w.seg.b.x - w.seg.a.x) * (w.seg.b.x - w.seg.a.x) + (w.seg.b.y
                            - w.seg.a.y) * (w.seg.b.y - w.seg.a.y)) as nat,
                ;
                crate::fixed::lemma_isqrt_bounds(n);
                assert(root <= 0x8000_0000) by (nonlinear_arith)
                    requires
                        root * root <= n,
                        n <= 0x4000_0000_0000_0000,
                ;
                assert(seg_len_of(w.seg) == root as int);
                assert(fx_abs(seg_len_of(w.seg) * pr.1 as int) <= 65536 * seg_len_of(w.seg))
                    by (nonlinear_arith)
                    requires
                        0 <= pr.1 <= 65536,
                        seg_len_of(w.seg) >= 0,
                ;
                crate::fixed::lemma_tdiv_abs_le(
                    seg_len_of(w.seg) * pr.1 as int,
                    65536,
                    seg_len_of(w.seg),
                );
                assert(seg_len_of(w.seg) * pr.1 as int >= 0) by (nonlinear_arith)
                    requires
                        0 <= pr.1,
                        seg_len_of(w.seg) >= 0,
                ;
                match w.portal {
                    None => {},
                    Some(p) => {
                        let nsec = (p.0).0 as int;
                        assert(sector_ok(secs, secs[nsec]));
                        let rest = cast_trace_spec(
                            secs,
                            nsec,
                            Some((p.1).0 as int),
                            hit,
                            dx,
                            dy,
                            (fuel - 1) as nat,
                        );
                        lemma_trace_values(
                            secs,
                            nsec,
                            Some((p.1).0 as int),
                            hit,
                            dx,
                            dy,
                            (fuel - 1) as nat,
                        );
                        assert forall|i: int| 0 <= i < tr.len() implies {
                            &&& v2_bounded((#[trigger] tr[i]).hit_pos, FX_LIM as int)
                            &&& 0 <= tr[i].along <= 0x8000_0000
                            &&& -ELEV_LIM <= tr[i].in_info.floor_elev < tr[i].in_info.ceiling_elev
                                <= ELEV_LIM
                            &&& tr[i].out_info matches Some(oi) ==> -ELEV_LIM <= oi.floor_elev
                                < oi.ceiling_elev <= ELEV_LIM
                        } by {
                            if i > 0 {
                                assert(tr[i] == rest[i - 1]);
                            }
                        }
                    },
                }
            },
        }
    }
}

/// In a sector with no portals a cast yields at most one hit, and
/// exactly one when some eligible wall intersects the ray.
pub proof fn lemma_trace_solid_sector(
    secs: Seq<Sector>,
    sec: int,
    skip: Option<int>,
    pos: Vec2,
    dx: int,
    dy: int,
    fuel: nat,
)
    requires
        0 <= sec < secs.len(),
        fuel > 0,
        forall|i: int| 0 <= i < secs[sec].walls@.len() ==> (#[trigger] secs[sec].walls@[i]).portal
            is None,
    ensures
        cast_trace_spec(secs, sec, skip, pos, dx, dy, fuel).len() <= 1,
        (cast_trace_spec(secs, sec, skip, pos, dx, dy, fuel).len() == 1) <==> exists|i: int|
            0 <= i < secs[sec].walls@.len() && skip != Some(i) && (seg_intersect_spec(
                ray_to(pos, dx, dy),
                #[trigger] secs[sec].walls@[i].seg,
            ) is Some),
{
    let walls = secs[sec].walls@;
    let ray = ray_to(pos, dx, dy);
    lemma_best_hit_valid(walls, skip, ray, walls.len() as int);
    match best_hit_spec(walls, skip, ray, walls.len() as int) {
        None => {},
        Some(pr) => {
            assert(walls[pr.0].portal is None);
        },
    }
}

/// Raw squared distance between two bounded points.
fn dist_sqr(p: Vec2, q: Vec2) -> (r: i64)
    requires
        v2_bounded(p, FX_LIM as int),
        v2_bounded(q, FX_LIM as int),
    ensures
        r == dist_sqr_spec(p, q),
{
    let dx: i64 = q.x - p.x;
    let dy: i64 = q.y - p.y;
    proof {
        lemma_mul_upper_bound(fx_abs(dx as int), 0x2000_0000, fx_abs(dx as int), 0x2000_0000);
        lemma_mul_upper_bound(fx_abs(dy as int), 0x2000_0000, fx_abs(dy as int), 0x2000_0000);
        assert(dx as int * dx as int == fx_abs(dx as int) * fx_abs(dx as int)) by (nonlinear_arith);
        assert(dy as int * dy as int == fx_abs(dy as int) * fx_abs(dy as int)) by (nonlinear_arith);
        assert(dx as int * dx as int >= 0) by (nonlinear_arith);
        assert(dy as int * dy as int >= 0) by (nonlinear_arith);
    }
    dx * dx + dy * dy
}

/// The view of an executable best-hit candidate.
pub open spec fn hit_view(o: Option<(usize, i64)>) -> Option<(int, i64)> {
    match o {
        None => None,
        Some(p) => Some((p.0 as int, p.1)),
    }
}

/// The view of an executable skip-wall marker.
pub open spec fn skip_view(o: Option<usize>) -> Option<int> {
    match o {
        None => None,
        Some(k) => Some(k as int),
    }
}

impl World {
    /// Cast a ray from `pos` at `angle` (fixed-point radians; angle 0
    /// points along -y, as the renderer's convention has it) starting
    /// inside `sector`. Returns every surface the ray meets, nearest
    /// first, crossing portals, until a solid wall, the end of the map,
    /// or the portal-hop budget stops it.
    pub fn cast_ray(&self, sector: SectorIndex, pos: Vec2, angle: i64) -> (r: Vec<RayCastResult>)
        requires
            world_wf(self.sectors@),
            sector.0 < self.sectors@.len(),
            v2_bounded(pos, FX_LIM as int),
            -0x4000_0000_0000_0000 < angle < 0x4000_0000_0000_0000,
        ensures
            r@ == cast_trace_spec(
                self.sectors@,
                sector.0 as int,
                None,
                pos,
                RAY_REACH as int * sin_fx_spec(angle as int),
                -(RAY_REACH as int * cos_fx_spec(angle as int)),
                MAX_PORTAL_HOPS as nat,
            ),
            forall|i: int|
                0 <= i && i + 1 < r@.len() ==> (#[trigger] r@[i]).out_info == Some(r@[i + 1].in_info),
            forall|i: int|
                0 <= i < r@.len() ==> {
                    &&& v2_bounded((#[trigger] r@[i]).hit_pos, FX_LIM as int)
                    &&& 0 <= r@[i].along <= 0x8000_0000
                    &&& -ELEV_LIM <= r@[i].in_info.floor_elev < r@[i].in_info.ceiling_elev
                        <= ELEV_LIM
                    &&& r@[i].out_info matches Some(oi) ==> -ELEV_LIM <= oi.floor_elev
                        < oi.ceiling_elev <= ELEV_LIM
                },
    {
        let sx: i64 = sin_fx(angle);
        let cx: i64 = cos_fx(angle);
        let dx: i64 = RAY_REACH * sx;
        let dy: i64 = -(RAY_REACH * cx);
        let ghost dxi = dx as int;
        let ghost dyi = dy as int;
        let ghost secs = self.sectors@;
        let ghost full = cast_trace_spec(
            secs,
            sector.0 as int,
            None,
            pos,
            dxi,
            dyi,
            MAX_PORTAL_HOPS as nat,
        );

        let mut results: Vec<RayCastResult> = Vec::new();
        let mut sec: usize = sector.0;
        let mut skip: Option<usize> = None;
        let mut p: Vec2 = pos;
        let mut hops: usize = MAX_PORTAL_HOPS;

        while hops > 0
            invariant_except_break
                world_wf(secs),
                secs == self.sectors@,
                sec < secs.len(),
                v2_bounded(p, FX_LIM as int),
                -65_536_000 <= dx <= 65_536_000,
                -65_536_000 <= dy <= 65_536_000,
                hops <= MAX_PORTAL_HOPS,
                results@ + cast_trace_spec(secs, sec as int, skip_view(skip), p, dxi, dyi, hops as nat)
                    == full,
                dxi == dx as int,
                dyi == dy as int,
            ensures
                results@ == full,
            decreases hops,
        {
            let ray: LineSeg = LineSeg { a: p, b: Vec2 { x: p.x + dx, y: p.y + dy } };
            let walls: &Vec<Wall> = &self.sectors[sec].walls;
            let ghost wseq = walls@;
            proof {
                assert(sector_ok(secs, secs[sec as int]));
            }

            let mut best: Option<(usize, i64)> = None;
            let mut best_d: i64 = 0;
            let mut i: usize = 0;
            while i < walls.len()
                invariant
                    i <= walls.len(),
                    wseq == walls@,
                    wseq == secs[sec as int].walls@,
                    sec < secs.len(),
                    sector_ok(secs, secs[sec as int]),
                    v2_bounded(p, FX_LIM as int),
                    -65_536_000 <= dx <= 65_536_000,
                    -65_536_000 <= dy <= 65_536_000,
                    ray == (LineSeg { a: p, b: Vec2 { x: (p.x + dx) as i64, y: (p.y + dy) as i64 } }),
                    hit_view(best) == best_hit_spec(wseq, skip_view(skip), ray, i as int),
                    best matches Some(pr) ==> pr.0 < i && 0 <= pr.1 <= 65536 && best_d
                        == dist_sqr_spec(ray.a, seg_at_spec(wseq[pr.0 as int].seg, pr.1 as int)),
                decreases walls.len() - i,
            {
                proof {
                    assert(wall_ok(secs, wseq[i as int]));
                }
                let skipped: bool = match skip {
                    Some(k) => k == i,
                    None => false,
                };
                if !skipped {
                    let w: Wall = walls[i];
                    match ray.intersects(w.seg) {
                        Some(t) => {
                            let hit_i: Vec2 = w.seg.at(t);
                            let cand_d: i64 = dist_sqr(p, hit_i);
                            match best {
                                None => {
                                    best = Some((i, t));
                                    best_d = cand_d;
                                },
                                Some(_) => {
                                    if cand_d < best_d {
                                        best = Some((i, t));
                                        best_d = cand_d;
                                    }
                                },
                            }
                        },
                        None => {},
                    }
                }
                i = i + 1;
            }

            match best {
                None => {
                    proof {
                        assert(cast_trace_spec(secs, sec as int, skip_view(skip), p, dxi, dyi, hops as nat)
                            =~= Seq::<RayCastResult>::empty());
                        assert(results@ + Seq::<RayCastResult>::empty() =~= results@);
                    }
                    break ;
                },
                Some((bi, bt)) => {
                    proof {
                        lemma_best_hit_valid(wseq, skip_view(skip), ray, wseq.len() as int);
                        assert(wall_ok(secs, wseq[bi as int]));
                    }
                    let w: Wall = walls[bi];
                    let hit: Vec2 = w.seg.at(bt);
                    let wl: i64 = w.seg.get_length();
                    proof {
                        assert(fx_abs(wl as int * bt as int) <= 0x4000_0000_0000_0000_0000)
                            by (nonlinear_arith)
                            requires
                                0 <= wl <= 0x8000_0000,
                                0 <= bt <= 65536,
                        ;
                    }
                    let along: i64 = fx_mul(wl, bt);
                    let out_info: Option<SectorInfo> = match w.portal {
                        Some((si, _wi)) => Some(self.sectors[si.0].info),
                        None => None,
                    };
                    let res: RayCastResult = RayCastResult {
                        along,
                        hit_pos: hit,
                        in_info: self.sectors[sec].info,
                        out_info,
                    };
                    let ghost old_results = results@;
                    results.push(res);
                    proof {
                        assert(results@ =~= old_results + seq![res]);
                    }
                    match w.portal {
                        None => {
                            proof {
                                assert(cast_trace_spec(
                                    secs,
                                    sec as int,
                                    skip_view(skip),
                                    p,
                                    dxi,
                                    dyi,
                                    hops as nat,
                                ) =~= seq![res]);
                                assert(results@ =~= full);
                            }
                            break ;
                        },
                        Some((si, wi)) => {
                            proof {
                                let rest = cast_trace_spec(
                                    secs,
                                    si.0 as int,
                                    Some(wi.0 as int),
                                    hit,
                                    dxi,
                                    dyi,
                                    (hops - 1) as nat,
                                );
                                assert(cast_trace_spec(
                                    secs,
                                    sec as int,
                                    skip_view(skip),
                                    p,
                                    dxi,
                                    dyi,
                                    hops as nat,
                                ) =~= seq![res] + rest);
                                assert(old_results + (seq![res] + rest) =~= (old_results + seq![res])
                                    + rest);
                            }
                            sec = si.0;
                            skip = Some(wi.0);
                            p = hit;
                            hops = hops - 1;
                        },
                    }
                },
            }
        }
        proof {
            lemma_trace_chained(
                secs,
                sector.0 as int,
                None,
                pos,
                dxi,
                dyi,
                MAX_PORTAL_HOPS as nat,
            );
            lemma_trace_values(
                secs,
                sector.0 as int,
                None,
                pos,
                dxi,
                dyi,
                MAX_PORTAL_HOPS as nat,
            );
        }
        results
    }
}

/// Scanning the walls up to a defect makes it the sector's defect.
proof fn reveal_sector_defect(secs: Seq<Sector>, s: Sector, n: int, d: Option<WorldError>)
    requires
        s.info.floor_elev < s.info.ceiling_elev,
        -ELEV_LIM <= s.info.floor_elev <= ELEV_LIM,
        -ELEV_LIM <= s.info.ceiling_elev <= ELEV_LIM,
        0 < n <= s.walls@.len(),
        walls_defect(secs, s.walls@, n) == d,
        d is Some,
    ensures
        sector_defect(secs, s) == d,
    decreases s.walls@.len() - n,
{
    if n < s.walls@.len() {
        assert(walls_defect(secs, s.walls@, n + 1) == d);
        reveal_sector_defect(secs, s, n + 1, d);
    }
}

/// A defect in sector `j` (with all earlier sectors clean) is the
/// world's defect.
proof fn reveal_defect_up_to(secs: Seq<Sector>, j: int, d: Option<WorldError>)
    requires
        0 <= j < secs.len(),
        sectors_defect(secs, j) is None,
        sector_defect(secs, secs[j]) == d,
        d is Some,
    ensures
        world_defect(secs) == d,
    decreases secs.len() - j,
{
    assert(sectors_defect(secs, j + 1) == d);
    if j + 1 < secs.len() {
        reveal_defect_up_to_tail(secs, j + 1, d);
    }
}

/// Once the running scan carries a defect, it stays.
proof fn reveal_defect_up_to_tail(secs: Seq<Sector>, j: int, d: Option<WorldError>)
    requires
        0 < j <= secs.len(),
        sectors_defect(secs, j) == d,
        d is Some,
    ensures
        world_defect(secs) == d,
    decreases secs.len() - j,
{
    if j < secs.len() {
        assert(sectors_defect(secs, j + 1) == d);
        reveal_defect_up_to_tail(secs, j + 1, d);
    }
}

/// A clean sector advances the sector scan.
proof fn lemma_sector_step(secs: Seq<Sector>, j: int)
    requires
        0 <= j < secs.len(),
        sectors_defect(secs, j) is None,
        sector_defect(secs, secs[j]) is None,
    ensures
        sectors_defect(secs, j + 1) is None,
{
}

/// A small demonstration world: one large room with two raised/sunken
/// alcoves, each joined to the room through four portal walls.
pub fn temp() -> (r: World)
    ensures
        world_wf(r.sectors@),
        r.sectors@.len() == 3,
        r.sectors@[0].info == (SectorInfo { floor_elev: 0, ceiling_elev: 1310720 }),
        r.sectors@[1].info == (SectorInfo { floor_elev: 131072, ceiling_elev: 1310720 }),
        r.sectors@[2].info == (SectorInfo { floor_elev: -131072i64, ceiling_elev: 1310720 }),
        r.sectors@[0].walls@.len() == 12,
        r.sectors@[1].walls@.len() == 4,
        r.sectors@[2].walls@.len() == 4,
        r.sectors@[0].walls@[0] == (Wall { seg: LineSeg { a: Vec2 { x: -2621440i64, y: -2621440i64 }, b: Vec2 { x: 2621440, y: -2621440i64 } }, portal: None }),
        r.sectors@[0].walls@[1] == (Wall { seg: LineSeg { a: Vec2 { x: 2621440, y: -2621440i64 }, b: Vec2 { x: 2621440, y: 2621440 } }, portal: None }),
        r.sectors@[0].walls@[2] == (Wall { seg: LineSeg { a: Vec2 { x: 2621440, y: 2621440 }, b: Vec2 { x: -2621440i64, y: 2621440 } }, portal: None }),
        r.sectors@[0].walls@[3] == (Wall { seg: LineSeg { a: Vec2 { x: -2621440i64, y: 2621440 }, b: Vec2 { x: -2621440i64, y: -2621440i64 } }, portal: None }),
        r.sectors@[0].walls@[4] == (Wall { seg: LineSeg { a: Vec2 { x: -1638400i64, y: -1638400i64 }, b: Vec2 { x: -655360i64, y: -1638400i64 } }, portal: Some((SectorIndex(1), WallIndex(0))) }),
        r.sectors@[0].walls@[5] == (Wall { seg: LineSeg { a: Vec2 { x: -655360i64, y: -1638400i64 }, b: Vec2 { x: -655360i64, y: -655360i64 } }, portal: Some((SectorIndex(1), WallIndex(1))) }),
        r.sectors@[0].walls@[6] == (Wall { seg: LineSeg { a: Vec2 { x: -655360i64, y: -655360i64 }, b: Vec2 { x: -1638400i64, y: -655360i64 } }, portal: Some((SectorIndex(1), WallIndex(2))) }),
        r.sectors@[0].walls@[7] == (Wall { seg: LineSeg { a: Vec2 { x: -1638400i64, y: -655360i64 }, b: Vec2 { x: -1638400i64, y: -1638400i64 } }, portal: Some((SectorIndex(1), WallIndex(3))) }),
        r.sectors@[0].walls@[8] == (Wall { seg: LineSeg { a: Vec2 { x: 1638400, y: 1638400 }, b: Vec2 { x: 655360, y: 1638400 } }, portal: Some((SectorIndex(2), WallIndex(0))) }),
        r.sectors@[0].walls@[9] == (Wall { seg: LineSeg { a: Vec2 { x: 655360, y: 1638400 }, b: Vec2 { x: 655360, y: 655360 } }, portal: Some((SectorIndex(2), WallIndex(1))) }),
        r.sectors@[0].walls@[10] == (Wall { seg: LineSeg { a: Vec2 { x: 655360, y: 655360 }, b: Vec2 { x: 1638400, y: 655360 } }, portal: Some((SectorIndex(2), WallIndex(2))) }),
        r.sectors@[0].walls@[11] == (Wall { seg: LineSeg { a: Vec2 { x: 1638400, y: 655360 }, b: Vec2 { x: 1638400, y: 1638400 } }, portal: Some((SectorIndex(2), WallIndex(3))) }),
        r.sectors@[1].walls@[0] == (Wall { seg: LineSeg { a: Vec2 { x: -1638400i64, y: -1638400i64 }, b: Vec2 { x: -655360i64, y: -1638400i64 } }, portal: Some((SectorIndex(0), WallIndex(4))) }),
        r.sectors@[1].walls@[1] == (Wall { seg: LineSeg { a: Vec2 { x: -655360i64, y: -1638400i64 }, b: Vec2 { x: -655360i64, y: -655360i64 } }, portal: Some((SectorIndex(0), WallIndex(5))) }),
        r.sectors@[1].walls@[2] == (Wall { seg: LineSeg { a: Vec2 { x: -655360i64, y: -655360i64 }, b: Vec2 { x: -1638400i64, y: -655360i64 } }, portal: Some((SectorIndex(0), WallIndex(6))) }),
        r.sectors@[1].walls@[3] == (Wall { seg: LineSeg { a: Vec2 { x: -1638400i64, y: -655360i64 }, b: Vec2 { x: -1638400i64, y: -1638400i64 } }, portal: Some((SectorIndex(0), WallIndex(7))) }),
        r.sectors@[2].walls@[0] == (Wall { seg: LineSeg { a: Vec2 { x: 1638400, y: 1638400 }, b: Vec2 { x: 655360, y: 1638400 } }, portal: Some((SectorIndex(0), WallIndex(8))) }),
        r.sectors@[2].walls@[1] == (Wall { seg: LineSeg { a: Vec2 { x: 655360, y: 1638400 }, b: Vec2 { x: 655360, y: 655360 } }, portal: Some((SectorIndex(0), WallIndex(9))) }),
        r.sectors@[2].walls@[2] == (Wall { seg: LineSeg { a: Vec2 { x: 655360, y: 655360 }, b: Vec2 { x: 1638400, y: 655360 } }, portal: Some((SectorIndex(0), WallIndex(10))) }),
        r.sectors@[2].walls@[3] == (Wall { seg: LineSeg { a: Vec2 { x: 1638400, y: 655360 }, b: Vec2 { x: 1638400, y: 1638400 } }, portal: Some((SectorIndex(0), WallIndex(11))) }),
{
    let mut w0: Vec<Wall> = Vec::new();
    w0.push(Wall::new(-2621440, -2621440, 2621440, -2621440, None));
    w0.push(Wall::new(2621440, -2621440, 2621440, 2621440, None));
    w0.push(Wall::new(2621440, 2621440, -2621440, 2621440, None));
    w0.push(Wall::new(-2621440, 2621440, -2621440, -2621440, None));
    w0.push(Wall::new(-1638400, -1638400, -655360, -1638400, Some((SectorIndex(1), WallIndex(0)))));
    w0.push(Wall::new(-655360, -1638400, -655360, -655360, Some((SectorIndex(1), WallIndex(1)))));
    w0.push(Wall::new(-655360, -655360, -1638400, -655360, Some((SectorIndex(1), WallIndex(2)))));
    w0.push(Wall::new(-1638400, -655360, -1638400, -1638400, Some((SectorIndex(1), WallIndex(3)))));
    w0.push(Wall::new(1638400, 1638400, 655360, 1638400, Some((SectorIndex(2), WallIndex(0)))));
    w0.push(Wall::new(655360, 1638400, 655360, 655360, Some((SectorIndex(2), WallIndex(1)))));
    w0.push(Wall::new(655360, 655360, 1638400, 655360, Some((SectorIndex(2), WallIndex(2)))));
    w0.push(Wall::new(1638400, 655360, 1638400, 1638400, Some((SectorIndex(2), WallIndex(3)))));

    let mut w1: Vec<Wall> = Vec::new();
    w1.push(Wall::new(-1638400, -1638400, -655360, -1638400, Some((SectorIndex(0), WallIndex(4)))));
    w1.push(Wall::new(-655360, -1638400, -655360, -655360, Some((SectorIndex(0), WallIndex(5)))));
    w1.push(Wall::new(-655360, -655360, -1638400, -655360, Some((SectorIndex(0), WallIndex(6)))));
    w1.push(Wall::new(-1638400, -655360, -1638400, -1638400, Some((SectorIndex(0), WallIndex(7)))));

    let mut w2: Vec<Wall> = Vec::new();
    w2.push(Wall::new(1638400, 1638400, 655360, 1638400, Some((SectorIndex(0), WallIndex(8)))));
    w2.push(Wall::new(655360, 1638400, 655360, 655360, Some((SectorIndex(0), WallIndex(9)))));
    w2.push(Wall::new(655360, 655360, 1638400, 655360, Some((SectorIndex(0), WallIndex(10)))));
    w2.push(Wall::new(1638400, 655360, 1638400, 1638400, Some((SectorIndex(0), WallIndex(11)))));

    let mut sectors: Vec<Sector> = Vec::new();
    sectors.push(Sector { info: SectorInfo { floor_elev: 0, ceiling_elev: 1310720 }, walls: w0 });
    sectors.push(
        Sector { info: SectorInfo { floor_elev: 131072, ceiling_elev: 1310720 }, walls: w1 },
    );
    sectors.push(
        Sector { info: SectorInfo { floor_elev: -131072, ceiling_elev: 1310720 }, walls: w2 },
    );

    proof {
        let secs = sectors@;
        assert forall|j: int| 0 <= j < secs.len() implies sector_ok(secs, #[trigger] secs[j]) by {
            assert forall|i: int| 0 <= i < secs[j].walls@.len() implies wall_ok(
                secs,
                #[trigger] secs[j].walls@[i],
            ) by {
                if j == 0 {
                    assert(wall_ok(secs, secs[0].walls@[i]));
                } else if j == 1 {
                    assert(wall_ok(secs, secs[1].walls@[i]));
                } else {
                    assert(wall_ok(secs, secs[2].walls@[i]));
                }
            }
        }
        assert(world_wf(sectors@));
    }
    match World::new(sectors) {
        Ok(w) => w,
        Err(_) => {
            proof {
                assert(false);
            }
            World { sectors: Vec::new() }
        },
    }
}

/// Check one wall against the world, returning its defect if any.
fn check_wall(sectors: &Vec<Sector>, w: &Wall) -> (r: Option<WorldError>)
    ensures
        r == wall_defect(sectors@, *w),
        r is None <==> wall_ok(sectors@, *w),
{
    if !(-FX_LIM <= w.seg.a.x && w.seg.a.x <= FX_LIM && -FX_LIM <= w.seg.a.y && w.seg.a.y <= FX_LIM
        && -FX_LIM <= w.seg.b.x && w.seg.b.x <= FX_LIM && -FX_LIM <= w.seg.b.y && w.seg.b.y
        <= FX_LIM) {
        return Some(WorldError::CoordinateRange);
    }
    match w.portal {
        None => None,
        Some((si, wi)) => {
            if si.0 >= sectors.len() {
                Some(WorldError::PortalSector)
            } else if wi.0 >= sectors[si.0].walls.len() {
                Some(WorldError::PortalWall)
            } else {
                let other: LineSeg = sectors[si.0].walls[wi.0].seg;
                let same: bool = w.seg.a.x == other.a.x && w.seg.a.y == other.a.y && w.seg.b.x
                    == other.b.x && w.seg.b.y == other.b.y;
                let swapped: bool = w.seg.a.x == other.b.x && w.seg.a.y == other.b.y && w.seg.b.x
                    == other.a.x && w.seg.b.y == other.a.y;
                if same || swapped {
                    None
                } else {
                    Some(WorldError::PortalMirror)
                }
            }
        },
    }
}

} // verus!
