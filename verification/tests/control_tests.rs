use killer_critters::basic::make_really_basic_map1;
use killer_critters::control::{check_for_death, check_for_win, check_pickup, control_player};
use killer_critters::geom::{IVec2, Vec2Fx};
use killer_critters::grid::Grid;
use killer_critters::player::{Player, PlayerAction, PlayerControl, PlayerController};
use killer_critters::tile::{Bomb, PowerUpType, TileType};

fn new_player() -> Player {
    Player::new(0, PlayerController::KeyboardArrows)
}

#[test]
fn test_move_in_open_space() {
    // From the center of the open cell the wall is half a tile away:
    // farther than the border margin, so motion goes through unchanged.
    let mut g = make_really_basic_map1();
    let mut pos = Vec2Fx::new(1000, 1000);
    let mut p = new_player();
    let c = PlayerControl {
        motion: Vec2Fx::new(1000, 0),
        action: PlayerAction::Idle,
    };
    control_player(&mut g, &mut pos, &mut p, &c, 0);
    assert_eq!(pos, Vec2Fx::new(1050, 1000));
    assert_eq!(p.num_bombs, 1);
}

#[test]
fn test_move_slides_along_wall() {
    // From (1.2, 1.0) moving right, the target is 0.25 tiles from the
    // wall square at (2, 1): within the border margin, so motion is
    // redirected along the push direction (pointing back from the wall),
    // and the actor backs off instead of penetrating.
    let mut g = make_really_basic_map1();
    let mut pos = Vec2Fx::new(1200, 1000);
    let mut p = new_player();
    let c = PlayerControl {
        motion: Vec2Fx::new(1000, 0),
        action: PlayerAction::Idle,
    };
    control_player(&mut g, &mut pos, &mut p, &c, 0);
    assert_eq!(pos, Vec2Fx::new(1150, 1000));
}

#[test]
fn test_drop_bomb_on_empty_cell() {
    let mut g = make_really_basic_map1();
    let mut pos = Vec2Fx::new(1000, 1000);
    let mut p = new_player();
    p.firepower = 2;
    let c = PlayerControl {
        motion: Vec2Fx::new(0, 0),
        action: PlayerAction::DropBomb,
    };
    control_player(&mut g, &mut pos, &mut p, &c, 41);
    assert_eq!(
        g.tile_at(IVec2::new(1, 1)),
        TileType::Bomb(Some(Bomb {
            when_to_explode: 3041,
            firepower: 2,
            player_index: 0,
        }))
    );
    assert_eq!(p.num_bombs, 0);
    assert_eq!(pos, Vec2Fx::new(1000, 1000));
}

#[test]
fn test_drop_bomb_without_ammunition_is_refused() {
    let mut g = make_really_basic_map1();
    let mut pos = Vec2Fx::new(1000, 1000);
    let mut p = new_player();
    p.num_bombs = 0;
    let c = PlayerControl {
        motion: Vec2Fx::new(0, 0),
        action: PlayerAction::DropBomb,
    };
    control_player(&mut g, &mut pos, &mut p, &c, 0);
    assert_eq!(g.tile_at(IVec2::new(1, 1)), TileType::Empty);
    assert_eq!(p.num_bombs, 0);
}

#[test]
fn test_drop_bomb_on_occupied_cell_is_refused() {
    let mut g = make_really_basic_map1();
    g.set_tile(IVec2::new(1, 1), TileType::PowerUp(PowerUpType::Firepower));
    let mut pos = Vec2Fx::new(1000, 1000);
    let mut p = new_player();
    let c = PlayerControl {
        motion: Vec2Fx::new(0, 0),
        action: PlayerAction::DropBomb,
    };
    control_player(&mut g, &mut pos, &mut p, &c, 0);
    assert_eq!(
        g.tile_at(IVec2::new(1, 1)),
        TileType::PowerUp(PowerUpType::Firepower)
    );
    assert_eq!(p.num_bombs, 1);
}

#[test]
fn test_pickup_firepower() {
    let mut g = make_really_basic_map1();
    g.set_tile(IVec2::new(1, 1), TileType::PowerUp(PowerUpType::Firepower));
    let mut p = new_player();
    check_pickup(&mut g, Vec2Fx::new(1000, 1000), &mut p);
    assert_eq!(p.firepower, 2);
    assert_eq!(p.num_bombs, 1);
    assert_eq!(g.tile_at(IVec2::new(1, 1)), TileType::Empty);
}

#[test]
fn test_pickup_extra_bomb() {
    let mut g = make_really_basic_map1();
    g.set_tile(IVec2::new(1, 1), TileType::PowerUp(PowerUpType::ExtraBomb));
    let mut p = new_player();
    check_pickup(&mut g, Vec2Fx::new(1000, 1000), &mut p);
    assert_eq!(p.num_bombs, 2);
    assert_eq!(p.firepower, 1);
    assert_eq!(g.tile_at(IVec2::new(1, 1)), TileType::Empty);
}

#[test]
fn test_pickup_on_empty_cell_is_noop() {
    let mut g = make_really_basic_map1();
    let mut p = new_player();
    check_pickup(&mut g, Vec2Fx::new(1000, 1000), &mut p);
    assert_eq!(p.num_bombs, 1);
    assert_eq!(p.firepower, 1);
    assert_eq!(g.tile_at(IVec2::new(1, 1)), TileType::Empty);
}

#[test]
fn test_pickup_twice_applies_once() {
    let mut g = make_really_basic_map1();
    g.set_tile(IVec2::new(1, 1), TileType::PowerUp(PowerUpType::Firepower));
    let mut p = new_player();
    check_pickup(&mut g, Vec2Fx::new(1000, 1000), &mut p);
    check_pickup(&mut g, Vec2Fx::new(1000, 1000), &mut p);
    assert_eq!(p.firepower, 2);
    assert_eq!(g.tile_at(IVec2::new(1, 1)), TileType::Empty);
}

#[test]
fn test_check_for_death() {
    let mut g = make_really_basic_map1();
    assert!(!check_for_death(&g, Vec2Fx::new(1000, 1000)));
    g.set_tile(
        IVec2::new(1, 1),
        TileType::Explosion(Some(100), killer_critters::tile::Residue::Empty),
    );
    assert!(check_for_death(&g, Vec2Fx::new(1000, 1000)));
    // Outside the grid: never deadly.
    assert!(!check_for_death(&g, Vec2Fx::new(-900, 0)));
}

#[test]
fn test_check_for_win() {
    // A lone player never ends the round; with several, it ends when at
    // most one is left alive.
    assert!(!check_for_win(1, 0));
    assert!(!check_for_win(2, 0));
    assert!(check_for_win(1, 1));
    assert!(check_for_win(0, 2));
    assert!(!check_for_win(3, 1));
}

#[test]
fn test_player_new_and_reset() {
    let mut p = Player::new(2, PlayerController::Gamepad(1));
    assert_eq!(p.player_index, 2);
    assert_eq!(p.controller, PlayerController::Gamepad(1));
    assert_eq!(p.num_bombs, 1);
    assert_eq!(p.firepower, 1);
    p.num_bombs = 5;
    p.firepower = 9;
    p.reset();
    assert_eq!(p.num_bombs, 1);
    assert_eq!(p.firepower, 1);
    assert_eq!(p.player_index, 2);
}

#[test]
fn test_movement_outside_grid_still_moves() {
    // With the current position rounding outside the grid, no bomb can be
    // placed but the position still advances.
    let mut g = Grid::new_empty(3, 3);
    let mut pos = Vec2Fx::new(-5000, 0);
    let mut p = new_player();
    let c = PlayerControl {
        motion: Vec2Fx::new(1000, 0),
        action: PlayerAction::DropBomb,
    };
    control_player(&mut g, &mut pos, &mut p, &c, 0);
    assert_eq!(pos, Vec2Fx::new(-4950, 0));
    assert_eq!(p.num_bombs, 1);
}
