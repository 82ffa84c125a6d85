use rustycast::fixed::FX_ONE;
use rustycast::math::Vec2;
use rustycast::world::{
    temp, Sector, SectorIndex, SectorInfo, Wall, WallIndex, World, WorldError,
};

fn unit(v: i64) -> i64 {
    v * FX_ONE
}

/// A closed rectangular sector with solid walls: x in [x0, x1],
/// y in [y0, y1], counter-clockwise boundary.
fn solid_box(x0: i64, y0: i64, x1: i64, y1: i64, floor: i64, ceiling: i64) -> Sector {
    Sector {
        info: SectorInfo { floor_elev: floor, ceiling_elev: ceiling },
        walls: vec![
            Wall::new(x0, y0, x1, y0, None),
            Wall::new(x1, y0, x1, y1, None),
            Wall::new(x1, y1, x0, y1, None),
            Wall::new(x0, y1, x0, y0, None),
        ],
    }
}

#[test]
fn world_new_accepts_good_data() {
    let w = World::new(vec![solid_box(unit(-40), unit(-40), unit(40), unit(40), 0, unit(20))]);
    assert!(w.is_ok());
}

#[test]
fn world_new_rejects_empty() {
    assert_eq!(World::new(vec![]).err(), Some(WorldError::Empty));
}

#[test]
fn world_new_rejects_elevation_order() {
    let s = solid_box(unit(-1), unit(-1), unit(1), unit(1), unit(5), unit(5));
    assert_eq!(World::new(vec![s]).err(), Some(WorldError::ElevationOrder));
}

#[test]
fn world_new_rejects_elevation_range() {
    let s = solid_box(unit(-1), unit(-1), unit(1), unit(1), 0, unit(100));
    assert_eq!(World::new(vec![s]).err(), Some(WorldError::ElevationRange));
}

#[test]
fn world_new_rejects_coordinate_range() {
    let s = solid_box(unit(-1), unit(-1), unit(90000), unit(1), 0, unit(20));
    assert_eq!(World::new(vec![s]).err(), Some(WorldError::CoordinateRange));
}

#[test]
fn world_new_rejects_portal_to_missing_sector() {
    let mut s = solid_box(unit(-1), unit(-1), unit(1), unit(1), 0, unit(20));
    s.walls[0].portal = Some((SectorIndex(7), WallIndex(0)));
    assert_eq!(World::new(vec![s]).err(), Some(WorldError::PortalSector));
}

#[test]
fn world_new_rejects_portal_to_missing_wall() {
    let mut s = solid_box(unit(-1), unit(-1), unit(1), unit(1), 0, unit(20));
    s.walls[0].portal = Some((SectorIndex(0), WallIndex(9)));
    assert_eq!(World::new(vec![s]).err(), Some(WorldError::PortalWall));
}

#[test]
fn world_new_rejects_unmirrored_portal() {
    let mut s = solid_box(unit(-1), unit(-1), unit(1), unit(1), 0, unit(20));
    s.walls[0].portal = Some((SectorIndex(0), WallIndex(2)));
    assert_eq!(World::new(vec![s]).err(), Some(WorldError::PortalMirror));
}

#[test]
fn demo_world_shape() {
    let w = temp();
    assert_eq!(w.sectors.len(), 3);
    assert_eq!(w.get_walls().len(), 12);
    assert_eq!(w.get_elevation(SectorIndex(0)), 0);
    assert_eq!(w.get_elevation(SectorIndex(1)), unit(2));
    assert_eq!(w.get_elevation(SectorIndex(2)), unit(-2));
}

#[test]
fn move_inside_interior_keeps_sector() {
    let w = temp();
    let s = w.move_object(SectorIndex(0), Vec2::new(0, 0), Vec2::new(unit(1), unit(1)));
    assert_eq!(s, SectorIndex(0));
}

#[test]
fn move_through_one_portal_changes_sector() {
    let w = temp();
    // Crosses only the south wall of the first alcove (y = -25,
    // x in [-25, -10]), whose portal leads to sector 1.
    let from = Vec2::new(-1146880, -1966080); // (-17.5, -30)
    let to = Vec2::new(-1146880, -1310720); // (-17.5, -20)
    assert_eq!(w.move_object(SectorIndex(0), from, to), SectorIndex(1));
    // And back out again.
    assert_eq!(w.move_object(SectorIndex(1), to, from), SectorIndex(0));
}

#[test]
fn move_through_two_portals_last_crossing_wins() {
    let w = temp();
    // A long diagonal step that crosses walls of both alcoves in one
    // go: the tie-break is deterministic and order-dependent, the last
    // enumerated crossing wins, which here is the second alcove.
    let from = Vec2::new(-1146880, -1966080); // (-17.5, -30)
    let to = Vec2::new(1146880, 1966080); // (17.5, 30)
    assert_eq!(w.move_object(SectorIndex(0), from, to), SectorIndex(2));
}

#[test]
fn move_through_solid_wall_keeps_sector() {
    let w = temp();
    // Crosses the outer boundary, which is solid: the sector must not
    // change, whatever the position does.
    let from = Vec2::new(unit(39), 0);
    let to = Vec2::new(unit(41), 0);
    assert_eq!(w.move_object(SectorIndex(0), from, to), SectorIndex(0));
}

#[test]
fn cast_in_solid_sector_yields_one_hit() {
    // A closed convex sector with no portals: a cast from any interior
    // point at any angle yields exactly one result.
    let w = World::new(vec![solid_box(
        unit(-40),
        unit(-40),
        unit(40),
        unit(40),
        0,
        unit(20),
    )])
    .unwrap();
    let pos = Vec2::new(unit(3), unit(2));
    for k in 0..21i64 {
        let angle = k * 19661; // steps of about 0.3 rad
        let hits = w.cast_ray(SectorIndex(0), pos, angle);
        assert_eq!(hits.len(), 1, "angle {}", angle);
        assert!(hits[0].out_info.is_none());
    }
}

#[test]
fn cast_straight_at_wall_hits_at_ten_units() {
    // Viewer at the origin facing a solid wall at y = -10 spanning
    // x in [-50, 50]: one hit at (0, -10), ten units away.
    let sector = Sector {
        info: SectorInfo { floor_elev: 0, ceiling_elev: unit(10) },
        walls: vec![
            Wall::new(unit(-50), unit(-10), unit(50), unit(-10), None),
            Wall::new(unit(50), unit(-10), unit(50), unit(60), None),
            Wall::new(unit(50), unit(60), unit(-50), unit(60), None),
            Wall::new(unit(-50), unit(60), unit(-50), unit(-10), None),
        ],
    };
    let w = World::new(vec![sector]).unwrap();
    let hits = w.cast_ray(SectorIndex(0), Vec2::new(0, 0), 0);
    assert_eq!(hits.len(), 1);
    assert_eq!(hits[0].hit_pos, Vec2::new(0, unit(-10)));
    assert!(hits[0].out_info.is_none());
    let dist = hits[0].hit_pos.sub(Vec2::new(0, 0)).get_length();
    assert_eq!(dist, unit(10));
    // The hit is halfway along the 100-unit wall.
    assert_eq!(hits[0].along, unit(50));
}

#[test]
fn cast_tie_break_first_wall_wins() {
    // Two walls meeting exactly at the ray's hit point: equal raw
    // squared distances, and the earlier enumerated wall wins.
    let sector = Sector {
        info: SectorInfo { floor_elev: 0, ceiling_elev: unit(10) },
        walls: vec![
            // Hit at its start: parameter 0, texture coordinate 0.
            Wall::new(0, unit(-10), unit(10), unit(-10), None),
            // Hit at its end: parameter 1, texture coordinate 10 units.
            Wall::new(unit(-10), unit(-10), 0, unit(-10), None),
        ],
    };
    let w = World::new(vec![sector]).unwrap();
    let hits = w.cast_ray(SectorIndex(0), Vec2::new(0, 0), 0);
    assert_eq!(hits.len(), 1);
    assert_eq!(hits[0].hit_pos, Vec2::new(0, unit(-10)));
    assert_eq!(hits[0].along, 0);
}

#[test]
fn cast_through_portals_chains_sector_infos() {
    let w = temp();
    // Aim into the raised alcove: the ray crosses its portal, crosses
    // it again on the way out, and ends on the outer wall.
    let angle = -34865; // roughly atan(10/17) to the south-west
    let hits = w.cast_ray(SectorIndex(0), Vec2::new(0, 0), angle);
    assert!(hits.len() >= 2, "got {} hits", hits.len());
    for i in 0..hits.len() - 1 {
        assert_eq!(hits[i].out_info, Some(hits[i + 1].in_info));
    }
    assert_eq!(hits[0].in_info.floor_elev, 0);
    assert_eq!(hits[1].in_info.floor_elev, unit(2));
    assert!(hits[hits.len() - 1].out_info.is_none());
}
