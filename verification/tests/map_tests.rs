use killer_critters::basic::{
    make_basic_map, make_basic_map_from_draws, make_really_basic_map1, make_really_basic_map2,
    rubble_tile, within_distance_of_spawn_points,
};
use killer_critters::basic::{PROB_FIREPOWER_U32, PROB_RUBBLE_U32};
use killer_critters::geom::IVec2;
use killer_critters::tile::{PowerUpType, Residue, TileType};

#[test]
fn test_really_basic_map1_layout() {
    let g = make_really_basic_map1();
    assert_eq!(g.width(), 3);
    assert_eq!(g.height(), 3);
    assert_eq!(
        g.spawn_points().as_slice(),
        &[IVec2::new(1, 1), IVec2::new(1, 1)]
    );
    for pos in g.pos_iter() {
        if g.is_edge(pos) {
            assert_eq!(g.tile_at(pos), TileType::SolidWall);
        } else {
            assert_eq!(g.tile_at(pos), TileType::Empty);
        }
    }
}

#[test]
fn test_really_basic_map2_layout() {
    let g = make_really_basic_map2();
    assert_eq!(g.width(), 5);
    assert_eq!(g.height(), 5);
    assert_eq!(
        g.spawn_points().as_slice(),
        &[IVec2::new(1, 1), IVec2::new(1, 1)]
    );
    for pos in g.pos_iter() {
        if g.is_edge(pos) || (pos.x == 2 && pos.y == 2) {
            assert_eq!(g.tile_at(pos), TileType::SolidWall);
        } else {
            assert_eq!(g.tile_at(pos), TileType::Empty);
        }
    }
}

#[test]
fn test_basic_map_structure() {
    // The procedural recipe draws at random, but its structure holds of
    // every outcome: solid border, pillar lattice, clear spawn areas,
    // rubble only on eligible cells.
    let g = make_basic_map(9, 7);
    assert_eq!(g.width(), 9);
    assert_eq!(g.height(), 7);
    let spawns = [
        IVec2::new(1, 1),
        IVec2::new(1, 5),
        IVec2::new(7, 1),
        IVec2::new(7, 5),
    ];
    assert_eq!(g.spawn_points().as_slice(), &spawns);
    let spawn_vec: Vec<IVec2> = spawns.to_vec();
    for pos in g.pos_iter() {
        let t = g.tile_at(pos);
        if g.is_edge(pos) {
            assert_eq!(t, TileType::SolidWall);
        } else if pos.x % 2 == 0 && pos.y % 2 == 0 {
            assert_eq!(t, TileType::SolidWall);
        } else if within_distance_of_spawn_points(pos, &spawn_vec, 1) {
            assert_eq!(t, TileType::Empty, "cell near a spawn at {pos:?}");
        } else {
            assert!(
                matches!(t, TileType::Empty | TileType::BreakableWall(_)),
                "unexpected tile at {pos:?}: {t:?}"
            );
        }
    }
}

#[test]
fn test_basic_map_degenerate_sizes_do_not_crash() {
    for (w, h) in [(0usize, 0usize), (1, 1), (2, 2), (3, 1)] {
        let g = make_basic_map(w, h);
        assert_eq!(g.width(), w);
        assert_eq!(g.height(), h);
    }
}

#[test]
fn test_within_distance_of_spawn_points() {
    let sps = vec![IVec2::new(1, 1), IVec2::new(5, 5)];
    // The spawn cell itself and orthogonal neighbors are within squared
    // distance 1; diagonal neighbors are not.
    assert!(within_distance_of_spawn_points(IVec2::new(1, 1), &sps, 1));
    assert!(within_distance_of_spawn_points(IVec2::new(1, 2), &sps, 1));
    assert!(within_distance_of_spawn_points(IVec2::new(0, 1), &sps, 1));
    assert!(!within_distance_of_spawn_points(IVec2::new(2, 2), &sps, 1));
    assert!(!within_distance_of_spawn_points(IVec2::new(3, 1), &sps, 1));
    assert!(within_distance_of_spawn_points(IVec2::new(5, 4), &sps, 1));
    assert!(!within_distance_of_spawn_points(IVec2::new(3, 3), &sps, 1));
    let none: Vec<IVec2> = vec![];
    assert!(!within_distance_of_spawn_points(IVec2::new(0, 0), &none, 1));
}

#[test]
fn test_rubble_tile_thresholds() {
    let fp = TileType::BreakableWall(Residue::PowerUp(PowerUpType::Firepower));
    let eb = TileType::BreakableWall(Residue::PowerUp(PowerUpType::ExtraBomb));
    let bare = TileType::BreakableWall(Residue::Empty);

    // The rubble draw: strictly below the 0.8 threshold gets rubble.
    assert_eq!(rubble_tile(PROB_RUBBLE_U32 - 1, 0, 0, false), fp);
    assert_eq!(rubble_tile(PROB_RUBBLE_U32, 0, 0, false), TileType::Empty);
    // Spawn adjacency wins over any draw.
    assert_eq!(rubble_tile(0, 0, 0, true), TileType::Empty);
    // The firepower draw, then the extra-bomb draw only when it failed.
    assert_eq!(rubble_tile(0, PROB_FIREPOWER_U32 - 1, u32::MAX, false), fp);
    assert_eq!(rubble_tile(0, PROB_FIREPOWER_U32, 0, false), eb);
    assert_eq!(rubble_tile(0, PROB_FIREPOWER_U32, PROB_FIREPOWER_U32, false), bare);
}

#[test]
fn test_make_basic_map_from_draws_all_high() {
    // Draws at the top of the range: no cell gets rubble, so the map is
    // exactly the deterministic skeleton.
    let draws = vec![u32::MAX; 3 * 7 * 7];
    let g = make_basic_map_from_draws(7, 7, &draws);
    for pos in g.pos_iter() {
        let t = g.tile_at(pos);
        if g.is_edge(pos) || (pos.x % 2 == 0 && pos.y % 2 == 0) {
            assert_eq!(t, TileType::SolidWall);
        } else {
            assert_eq!(t, TileType::Empty);
        }
    }
}

#[test]
fn test_make_basic_map_from_draws_all_low() {
    // Draws of zero: every eligible cell clear of the spawns gets rubble
    // hiding a firepower power-up; spawn-adjacent cells stay clear.
    let draws = vec![0u32; 3 * 7 * 7];
    let g = make_basic_map_from_draws(7, 7, &draws);
    let spawns = g.spawn_points().clone();
    for pos in g.pos_iter() {
        let t = g.tile_at(pos);
        if g.is_edge(pos) || (pos.x % 2 == 0 && pos.y % 2 == 0) {
            assert_eq!(t, TileType::SolidWall);
        } else if within_distance_of_spawn_points(pos, &spawns, 1) {
            assert_eq!(t, TileType::Empty);
        } else {
            assert_eq!(
                t,
                TileType::BreakableWall(Residue::PowerUp(PowerUpType::Firepower))
            );
        }
    }
}

#[test]
fn test_make_basic_map_from_draws_is_deterministic() {
    let draws: Vec<u32> = (0..3 * 9 * 7).map(|i| (i as u32).wrapping_mul(2654435761)).collect();
    let a = make_basic_map_from_draws(9, 7, &draws);
    let b = make_basic_map_from_draws(9, 7, &draws);
    for pos in a.pos_iter() {
        assert_eq!(a.tile_at(pos), b.tile_at(pos));
    }
}
