use killer_critters::basic::make_really_basic_map2;
use killer_critters::geom::{IVec2, Vec2Fx};
use killer_critters::grid::Grid;
use killer_critters::sdf::{closest_dist_to_tile, jet_colormap, map_sdf, map_sdf_samples};
use killer_critters::tile::TileType;

#[test]
fn test_closest_dist_to_tile() {
    // Distances to the unit square centered on cell (1, 1), i.e. the
    // square [0.5, 1.5] x [0.5, 1.5], in thousandths of a tile.
    let tile = IVec2::new(1, 1);

    // On the square's corner.
    assert_eq!(closest_dist_to_tile(Vec2Fx::new(1500, 1500), tile), 0);
    // Inside the square.
    assert_eq!(closest_dist_to_tile(Vec2Fx::new(1000, 1000), tile), 0);
    assert_eq!(closest_dist_to_tile(Vec2Fx::new(600, 1400), tile), 0);
    // Half a tile beyond the right face.
    assert_eq!(closest_dist_to_tile(Vec2Fx::new(2000, 1500), tile), 500);
    // Diagonal: one tile past the corner on both axes -> sqrt(2) tiles.
    assert_eq!(closest_dist_to_tile(Vec2Fx::new(2500, 2500), tile), 1414);
    // Far diagonal point (5, 5): 3.5 tiles past the corner on both axes.
    assert_eq!(closest_dist_to_tile(Vec2Fx::new(5000, 5000), tile), 4949);
    // Axis-aligned, one tile past a face.
    assert_eq!(closest_dist_to_tile(Vec2Fx::new(1000, 2500), tile), 1000);
    assert_eq!(closest_dist_to_tile(Vec2Fx::new(2500, 1000), tile), 1000);
}

#[test]
fn test_probe_saturates_in_open_space() {
    // A 5x5 all-empty neighborhood: the whole window is walkable, so the
    // probe returns the saturating default of minus two tiles with a zero
    // push direction.
    let g = Grid::new_empty(5, 5);
    let (sdf, dir) = map_sdf(&g, Vec2Fx::new(2000, 2000), None);
    assert_eq!(sdf, -2000);
    assert_eq!(dir, Vec2Fx::new(0, 0));
}

#[test]
fn test_probe_nonpositive_inside_walkable() {
    // Interior points of the walled 5x5 map are inside walkable space:
    // the signed distance is never positive there.
    let g = make_really_basic_map2();
    for (px, py) in [(1000i64, 1000i64), (1200, 1200), (1500, 3000), (3200, 3300)] {
        let (sdf, _) = map_sdf(&g, Vec2Fx::new(px, py), None);
        assert!(sdf <= 0, "sdf at ({px}, {py}) was {sdf}");
    }
}

#[test]
fn test_probe_distance_and_push_direction() {
    // Walled 5x5 map with a solid block at (2, 2). From (1.2, 1.2) the
    // nearest non-walkable square is the block's, 0.424 tiles away; the
    // push direction points from the block's center back at the probe
    // point.
    let g = make_really_basic_map2();
    let (sdf, dir) = map_sdf(&g, Vec2Fx::new(1200, 1200), None);
    assert_eq!(sdf, -424);
    assert_eq!(dir, Vec2Fx::new(-707, -707));
}

#[test]
fn test_probe_positive_inside_wall() {
    // Probing the solid block itself: blocked space, positive distance to
    // the nearest walkable square. Four neighbors tie at half a tile; the
    // first in window order is the one above, so the push direction points
    // down from its center toward the probe point.
    let g = make_really_basic_map2();
    let (sdf, dir) = map_sdf(&g, Vec2Fx::new(2000, 2000), None);
    assert_eq!(sdf, 500);
    assert_eq!(dir, Vec2Fx::new(0, 1000));
}

#[test]
fn test_probe_exempt_cell_counts_as_free() {
    // A grid whose center cell holds a wall: probing the center with that
    // cell exempted sees only walkable space in the window.
    let mut g = Grid::new_empty(9, 9);
    g.set_tile(IVec2::new(4, 4), TileType::SolidWall);
    let (sdf_blocked, _) = map_sdf(&g, Vec2Fx::new(4400, 4400), None);
    assert!(sdf_blocked > 0);
    let (sdf_free, dir) = map_sdf(&g, Vec2Fx::new(4400, 4400), Some(IVec2::new(4, 4)));
    assert_eq!(sdf_free, -2000);
    assert_eq!(dir, Vec2Fx::new(0, 0));
}

#[test]
fn test_jet_colormap_ramp() {
    // One tile deep in walkable space: blue. On the boundary: green.
    // One tile into blocked space: red. Quarter points: cyan and yellow.
    assert_eq!(jet_colormap(-1000), (0, 0, 1000));
    assert_eq!(jet_colormap(-500), (0, 1000, 1000));
    assert_eq!(jet_colormap(0), (0, 1000, 0));
    assert_eq!(jet_colormap(500), (1000, 1000, 0));
    assert_eq!(jet_colormap(1000), (1000, 0, 0));
    // Readings past one tile clamp to the ends of the ramp.
    assert_eq!(jet_colormap(-2000), (0, 0, 1000));
    assert_eq!(jet_colormap(2000), (1000, 0, 0));
    // A point on a linear segment of the ramp.
    assert_eq!(jet_colormap(-600), (0, 800, 1000));
}

#[test]
fn test_map_sdf_samples_open_grid() {
    // Sampling an all-empty grid: every window is fully walkable, so
    // every sample saturates.
    let g = Grid::new_empty(3, 3);
    let samples = map_sdf_samples(&g, 1);
    assert_eq!(samples.len(), 9);
    assert!(samples.iter().all(|s| *s == -2000));
}

#[test]
fn test_map_sdf_samples_match_probe() {
    // Each sample equals a direct probe at the sample's position.
    let g = make_really_basic_map2();
    let scale = 2usize;
    let samples = map_sdf_samples(&g, scale);
    assert_eq!(samples.len(), 100);
    let width_px = 5 * scale;
    for (i, s) in samples.iter().enumerate() {
        let px = (i % width_px) as i64;
        let py = (i / width_px) as i64;
        let pos = Vec2Fx::new(px * 1000 / scale as i64 - 500, py * 1000 / scale as i64 - 500);
        let (sdf, _) = map_sdf(&g, pos, None);
        assert_eq!(*s, sdf, "sample {i} at {pos:?}");
    }
}
