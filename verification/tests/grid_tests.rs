use killer_critters::geom::{IVec2, Vec2Fx};
use killer_critters::grid::Grid;
use killer_critters::tile::TileType;

#[test]
fn test_contains_iff_in_bounds() {
    let g = Grid::new_empty(4, 3);
    for x in -2i32..6 {
        for y in -2i32..5 {
            let expected = 0 <= x && x < 4 && 0 <= y && y < 3;
            assert_eq!(g.contains(IVec2::new(x, y)), expected);
        }
    }
}

#[test]
fn test_is_edge_ring() {
    let g = Grid::new_empty(4, 3);
    assert!(g.is_edge(IVec2::new(0, 1)));
    assert!(g.is_edge(IVec2::new(3, 1)));
    assert!(g.is_edge(IVec2::new(1, 0)));
    assert!(g.is_edge(IVec2::new(1, 2)));
    assert!(g.is_edge(IVec2::new(0, 0)));
    assert!(!g.is_edge(IVec2::new(1, 1)));
    assert!(!g.is_edge(IVec2::new(2, 1)));
}

#[test]
fn test_edge_count_matches_formula() {
    // 2*w + 2*h - 4 edge cells, counted over the full enumeration.
    for (w, h) in [(2usize, 2usize), (4, 3), (5, 5), (7, 2)] {
        let g = Grid::new_empty(w, h);
        let mut count = 0usize;
        for pos in g.pos_iter() {
            if g.is_edge(pos) {
                count += 1;
            }
        }
        assert_eq!(count, 2 * w + 2 * h - 4);
    }
}

#[test]
fn test_pos_iter_column_major_order() {
    let g = Grid::new_empty(3, 2);
    let cells = g.pos_iter();
    let expected = [(0, 0), (0, 1), (1, 0), (1, 1), (2, 0), (2, 1)];
    assert_eq!(cells.len(), 6);
    for (i, (x, y)) in expected.iter().enumerate() {
        assert_eq!(cells[i], IVec2::new(*x, *y));
    }
}

#[test]
fn test_get_index_from_position_rounds_to_nearest() {
    let g = Grid::new_empty(4, 3);
    // 1.4 rounds to 1, 1.5 rounds to 2.
    assert_eq!(
        g.get_index_from_position(Vec2Fx::new(1400, 1500)),
        Some(IVec2::new(1, 2))
    );
    // -0.4 rounds to 0, still inside.
    assert_eq!(
        g.get_index_from_position(Vec2Fx::new(-400, 0)),
        Some(IVec2::new(0, 0))
    );
    // -0.5 rounds away from zero to -1: outside.
    assert_eq!(g.get_index_from_position(Vec2Fx::new(-500, 0)), None);
    // 3.5 rounds to 4: outside a width-4 grid.
    assert_eq!(g.get_index_from_position(Vec2Fx::new(3500, 1000)), None);
    assert_eq!(
        g.get_index_from_position(Vec2Fx::new(3400, 1000)),
        Some(IVec2::new(3, 1))
    );
}

#[test]
fn test_center_in_fixed_point() {
    let g = Grid::new_empty(4, 6);
    let c = g.center();
    assert_eq!(c, Vec2Fx::new(2000, 3000));
}

#[test]
fn test_new_empty_all_empty_and_tile_update() {
    let mut g = Grid::new_empty(3, 3);
    assert_eq!(g.width(), 3);
    assert_eq!(g.height(), 3);
    assert!(g.spawn_points().is_empty());
    for pos in g.pos_iter() {
        assert_eq!(g.tile_at(pos), TileType::Empty);
    }
    g.set_tile(IVec2::new(2, 1), TileType::SolidWall);
    assert_eq!(g.tile_at(IVec2::new(2, 1)), TileType::SolidWall);
    assert_eq!(g.tile_at(IVec2::new(1, 2)), TileType::Empty);
}

#[test]
fn test_spawn_points_roundtrip() {
    let mut g = Grid::new_empty(5, 5);
    g.set_spawn_points(vec![IVec2::new(1, 1), IVec2::new(3, 3)]);
    assert_eq!(g.spawn_points().as_slice(), &[IVec2::new(1, 1), IVec2::new(3, 3)]);
}
