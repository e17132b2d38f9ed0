use killer_critters::basic::{make_really_basic_map1, make_really_basic_map2};
use killer_critters::geom::IVec2;
use killer_critters::player::{Player, PlayerController};
use killer_critters::sim::map_transitions;
use killer_critters::tile::{Bomb, PowerUpType, Residue, TileType};

fn bomb(due: u64, firepower: i32, player_index: usize) -> TileType {
    TileType::Bomb(Some(Bomb {
        when_to_explode: due,
        firepower,
        player_index,
    }))
}

#[test]
fn test_bomb_lifecycle() {
    // A bomb with firepower 1 on the open center of a 3x3 walled map:
    // nothing before the fuse expires; at expiry the cell becomes an
    // explosion and the owner is credited one bomb; at burn expiry the
    // cell reverts to its residue (empty).
    let mut g = make_really_basic_map1();
    let mut players = vec![Player::new(0, PlayerController::KeyboardArrows)];
    players[0].num_bombs = 0; // the bomb on the grid is theirs

    g.set_tile(IVec2::new(1, 1), bomb(3000, 1, 0));

    map_transitions(&mut g, &mut players, 2999);
    assert_eq!(g.tile_at(IVec2::new(1, 1)), bomb(3000, 1, 0));
    assert_eq!(players[0].num_bombs, 0);

    map_transitions(&mut g, &mut players, 3000);
    assert_eq!(
        g.tile_at(IVec2::new(1, 1)),
        TileType::Explosion(Some(3100), Residue::Empty)
    );
    assert_eq!(players[0].num_bombs, 1);

    map_transitions(&mut g, &mut players, 3099);
    assert_eq!(
        g.tile_at(IVec2::new(1, 1)),
        TileType::Explosion(Some(3100), Residue::Empty)
    );

    map_transitions(&mut g, &mut players, 3100);
    assert_eq!(g.tile_at(IVec2::new(1, 1)), TileType::Empty);
    assert_eq!(players[0].num_bombs, 1);
}

#[test]
fn test_blast_stops_at_solid_wall() {
    // 5x5 walled map with a solid block at (2, 2). A bomb at (1, 2) with
    // firepower 2: the ray toward the block stops at it; the block is
    // never converted and the cell beyond it is untouched.
    let mut g = make_really_basic_map2();
    let mut players: Vec<Player> = vec![];
    g.set_tile(IVec2::new(1, 2), bomb(0, 2, 0));

    map_transitions(&mut g, &mut players, 0);

    assert!(matches!(g.tile_at(IVec2::new(1, 2)), TileType::Explosion(_, _)));
    assert_eq!(g.tile_at(IVec2::new(2, 2)), TileType::SolidWall);
    assert_eq!(g.tile_at(IVec2::new(3, 2)), TileType::Empty);
    // The open cells above and below burned.
    assert!(matches!(g.tile_at(IVec2::new(1, 1)), TileType::Explosion(_, _)));
    assert!(matches!(g.tile_at(IVec2::new(1, 3)), TileType::Explosion(_, _)));
    // Border walls are untouched.
    assert_eq!(g.tile_at(IVec2::new(0, 2)), TileType::SolidWall);
}

#[test]
fn test_chain_reaction_same_pass() {
    // Bomb A at (1, 1) is due now; bomb B at (1, 2) is due much later.
    // Cells are visited in column-major order, so B's cell comes after
    // A's: the blast retimes B and B detonates in the same pass.
    let mut g = make_really_basic_map2();
    let mut players: Vec<Player> = vec![];
    g.set_tile(IVec2::new(1, 1), bomb(1000, 1, 0));
    g.set_tile(IVec2::new(1, 2), bomb(99_000, 1, 0));

    map_transitions(&mut g, &mut players, 1000);

    assert!(matches!(g.tile_at(IVec2::new(1, 1)), TileType::Explosion(_, _)));
    assert!(matches!(g.tile_at(IVec2::new(1, 2)), TileType::Explosion(_, _)));
}

#[test]
fn test_chain_reaction_next_pass() {
    // Bomb A at (1, 2) is due now; bomb B at (1, 1) is due much later.
    // B's cell was already visited when A's blast retimes it, so B keeps
    // its (retimed) fuse through this pass and detonates on the next one.
    let mut g = make_really_basic_map2();
    let mut players: Vec<Player> = vec![];
    g.set_tile(IVec2::new(1, 2), bomb(1000, 1, 0));
    g.set_tile(IVec2::new(1, 1), bomb(99_000, 1, 0));

    map_transitions(&mut g, &mut players, 1000);
    assert!(matches!(g.tile_at(IVec2::new(1, 2)), TileType::Explosion(_, _)));
    assert_eq!(g.tile_at(IVec2::new(1, 1)), bomb(1000, 1, 0));

    map_transitions(&mut g, &mut players, 1000);
    assert!(matches!(g.tile_at(IVec2::new(1, 1)), TileType::Explosion(_, _)));
}

#[test]
fn test_breakable_wall_reveal() {
    // A breakable wall hiding a firepower power-up, hit by a blast:
    // it becomes an explosion carrying the power-up as residue, then on
    // burn-out the power-up appears.
    let mut g = make_really_basic_map2();
    let mut players: Vec<Player> = vec![];
    g.set_tile(IVec2::new(1, 1), bomb(500, 1, 7));
    g.set_tile(
        IVec2::new(2, 1),
        TileType::BreakableWall(Residue::PowerUp(PowerUpType::Firepower)),
    );

    map_transitions(&mut g, &mut players, 500);
    assert_eq!(
        g.tile_at(IVec2::new(2, 1)),
        TileType::Explosion(Some(600), Residue::PowerUp(PowerUpType::Firepower))
    );

    map_transitions(&mut g, &mut players, 600);
    assert_eq!(
        g.tile_at(IVec2::new(2, 1)),
        TileType::PowerUp(PowerUpType::Firepower)
    );
}

#[test]
fn test_blast_burns_powerup_to_empty() {
    // A bare power-up in the blast path burns with an empty residue.
    let mut g = make_really_basic_map2();
    let mut players: Vec<Player> = vec![];
    g.set_tile(IVec2::new(1, 1), bomb(0, 1, 0));
    g.set_tile(
        IVec2::new(2, 1),
        TileType::PowerUp(PowerUpType::ExtraBomb),
    );

    map_transitions(&mut g, &mut players, 0);
    assert_eq!(
        g.tile_at(IVec2::new(2, 1)),
        TileType::Explosion(Some(100), Residue::Empty)
    );
}

#[test]
fn test_unowned_bomb_credits_nobody() {
    // A bomb whose player index is out of range still detonates; no
    // player is credited.
    let mut g = make_really_basic_map1();
    let mut players = vec![Player::new(0, PlayerController::KeyboardArrows)];
    players[0].num_bombs = 0;
    g.set_tile(IVec2::new(1, 1), bomb(0, 1, 5));

    map_transitions(&mut g, &mut players, 0);
    assert!(matches!(g.tile_at(IVec2::new(1, 1)), TileType::Explosion(_, _)));
    assert_eq!(players[0].num_bombs, 0);
}

#[test]
fn test_blast_passes_over_bomb_in_path() {
    // A bomb in the blast path is set off but does not itself block the
    // blast: the cell beyond it burns in the same pass.
    let mut g = make_really_basic_map2();
    let mut players: Vec<Player> = vec![];
    g.set_tile(IVec2::new(1, 1), bomb(0, 2, 0));
    g.set_tile(IVec2::new(1, 2), bomb(50_000, 1, 0));

    map_transitions(&mut g, &mut players, 0);
    assert!(matches!(g.tile_at(IVec2::new(1, 2)), TileType::Explosion(_, _)));
    assert!(matches!(g.tile_at(IVec2::new(1, 3)), TileType::Explosion(_, _)));
}

#[test]
fn test_oversized_firepower_stops_at_walls() {
    // A huge blast radius never reaches past the border walls, and the
    // pass terminates.
    let mut g = make_really_basic_map1();
    let mut players: Vec<Player> = vec![];
    g.set_tile(IVec2::new(1, 1), bomb(0, 1_000_000, 0));
    map_transitions(&mut g, &mut players, 0);
    assert!(matches!(g.tile_at(IVec2::new(1, 1)), TileType::Explosion(_, _)));
    for pos in g.pos_iter() {
        if g.is_edge(pos) {
            assert_eq!(g.tile_at(pos), TileType::SolidWall);
        }
    }
}

#[test]
fn test_undue_bomb_untouched() {
    let mut g = make_really_basic_map1();
    let mut players: Vec<Player> = vec![];
    g.set_tile(IVec2::new(1, 1), bomb(10_000, 3, 0));
    map_transitions(&mut g, &mut players, 9_999);
    assert_eq!(g.tile_at(IVec2::new(1, 1)), bomb(10_000, 3, 0));
}
