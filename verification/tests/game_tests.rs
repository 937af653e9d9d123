use gridworld::game::Character;
use gridworld::game::GameState;
use gridworld::game::MoveError;
use gridworld::map::create_default_map;
use gridworld::map::GameMap;
use gridworld::map::Tile;

fn empty_map(width: usize, height: usize) -> GameMap {
    GameMap::new(width, height, vec![Tile::Empty; width * height])
}

#[test]
fn test_character_new() {
    let character = Character::new(5, 10, 100);
    assert_eq!(character.x, 5);
    assert_eq!(character.y, 10);
    assert_eq!(character.health, 100);
}

#[test]
fn test_character_move_to() {
    let mut character = Character::new(0, 0, 100);
    character.move_to(3, 7);
    assert_eq!(character.x, 3);
    assert_eq!(character.y, 7);
    assert_eq!(character.health, 100); // health should remain unchanged
}

#[test]
fn test_map_new() {
    let tiles = vec![Tile::Empty, Tile::Wall, Tile::Wall, Tile::Empty];
    let map = GameMap::new(2, 2, tiles.clone());
    assert_eq!(map.width, 2);
    assert_eq!(map.height, 2);
    assert_eq!(map.tiles, tiles);
}

#[test]
fn test_map_is_valid_position() {
    let map = empty_map(2, 2);

    assert!(map.is_valid_position(0, 0));
    assert!(map.is_valid_position(1, 1));
    assert!(!map.is_valid_position(-1, 0));
    assert!(!map.is_valid_position(0, -1));
    assert!(!map.is_valid_position(2, 0));
    assert!(!map.is_valid_position(0, 2));
}

#[test]
fn test_map_is_walkable() {
    let tiles = vec![Tile::Empty, Tile::Wall, Tile::Wall, Tile::Empty];
    let map = GameMap::new(2, 2, tiles);

    assert!(map.is_walkable(0, 0)); // empty
    assert!(!map.is_walkable(1, 0)); // wall
    assert!(!map.is_walkable(0, 1)); // wall
    assert!(map.is_walkable(1, 1)); // empty
    assert!(!map.is_walkable(-1, 0)); // out of bounds
    assert!(!map.is_walkable(0, -1)); // out of bounds
}

#[test]
fn test_game_state_new() {
    let map = empty_map(1, 1);
    let game_state = GameState::new(map.duplicate());

    assert!(game_state.players.is_empty());
    assert_eq!(game_state.map.width, map.width);
    assert_eq!(game_state.map.height, map.height);
    assert!(game_state.clients.is_empty());
}

#[test]
fn test_game_state_move_character_valid() {
    let map = empty_map(2, 2);
    let mut game_state = GameState::new(map);
    let player_id = "player1".to_string();
    game_state.add_player(player_id.clone());

    assert!(game_state.move_character(&player_id, "right").is_ok());
    let char1 = game_state.get_character(&player_id).unwrap();
    assert_eq!(char1.x, 1);
    assert_eq!(char1.y, 0);

    assert!(game_state.move_character(&player_id, "down").is_ok());
    let char2 = game_state.get_character(&player_id).unwrap();
    assert_eq!(char2.x, 1);
    assert_eq!(char2.y, 1);
}

#[test]
fn test_game_state_move_character_invalid() {
    let tiles = vec![Tile::Wall, Tile::Wall, Tile::Empty, Tile::Empty];
    let map = GameMap::new(2, 2, tiles);
    let mut game_state = GameState::new(map);
    let player_id = "player1".to_string();
    game_state.add_player(player_id.clone());

    // Try to move into wall - should fail
    assert!(game_state.move_character(&player_id, "right").is_err());
    let char1 = game_state.get_character(&player_id).unwrap();
    assert_eq!(char1.x, 0);
    assert_eq!(char1.y, 0);

    // Try invalid direction - should fail
    assert!(game_state.move_character(&player_id, "diagonal").is_err());
    let char2 = game_state.get_character(&player_id).unwrap();
    assert_eq!(char2.x, 0);
    assert_eq!(char2.y, 0);

    // Try to move out of bounds - should fail
    assert!(game_state.move_character(&player_id, "left").is_err());
    let char3 = game_state.get_character(&player_id).unwrap();
    assert_eq!(char3.x, 0);
    assert_eq!(char3.y, 0);
}

#[test]
fn test_create_default_map() {
    let map = create_default_map();
    assert_eq!(map.width, 10);
    assert_eq!(map.height, 10);
    assert_eq!(map.tiles.len(), 100);

    // Check some known wall positions
    assert_eq!(map.tiles[3], Tile::Wall); // (3, 0)
    assert_eq!(map.tiles[11], Tile::Wall); // (1, 1)
    assert_eq!(map.tiles[0], Tile::Empty); // (0, 0)
}

#[test]
fn test_move_error_variants() {
    let tiles = vec![Tile::Wall, Tile::Wall, Tile::Empty, Tile::Empty];
    let map = GameMap::new(2, 2, tiles);
    let mut gs = GameState::new(map);
    gs.add_player("player1".to_string());

    // target is a wall
    assert_eq!(gs.move_character("player1", "right"), Err(MoveError::Blocked));
    // not one of the four direction literals
    assert_eq!(
        gs.move_character("player1", "diagonal"),
        Err(MoveError::InvalidDirection)
    );
    // target is out of bounds
    assert_eq!(gs.move_character("player1", "left"), Err(MoveError::Blocked));
    // the direction name is validated before the player id
    assert_eq!(
        gs.move_character("nobody", "diagonal"),
        Err(MoveError::InvalidDirection)
    );
}

#[test]
fn test_unregistered_player() {
    let mut gs = GameState::new(empty_map(2, 2));
    assert_eq!(gs.move_character("ghost", "up"), Err(MoveError::UnknownPlayer));
    assert!(gs.get_character("ghost").is_none());
}

#[test]
fn test_add_player_idempotent() {
    let mut gs = GameState::new(empty_map(2, 2));
    assert!(gs.add_player("p".to_string()));
    assert!(gs.move_character("p", "right").is_ok());
    // a second registration is a no-op: one character, position kept
    assert!(!gs.add_player("p".to_string()));
    assert_eq!(gs.players.len(), 1);
    let c = gs.get_character("p").unwrap();
    assert_eq!((c.x, c.y, c.health), (1, 0, 100));
}

#[test]
fn test_move_success_returns_updated_character() {
    let mut gs = GameState::new(empty_map(3, 3));
    gs.add_player("p".to_string());
    let c = gs.move_character("p", "down").unwrap();
    assert_eq!((c.x, c.y, c.health), (0, 1, 100));
    assert_eq!(gs.get_character("p").unwrap(), c);
    // up moves back: the unique neighbor in the opposite direction
    let c2 = gs.move_character("p", "up").unwrap();
    assert_eq!((c2.x, c2.y), (0, 0));
}

#[test]
fn test_distinct_players_no_lost_updates() {
    let mut gs = GameState::new(empty_map(3, 3));
    gs.add_player("a".to_string());
    gs.add_player("b".to_string());
    gs.add_player("c".to_string());

    assert!(gs.move_character("a", "right").is_ok());
    assert!(gs.move_character("b", "down").is_ok());

    let a = gs.get_character("a").unwrap();
    let b = gs.get_character("b").unwrap();
    let c = gs.get_character("c").unwrap();
    assert_eq!((a.x, a.y), (1, 0));
    assert_eq!((b.x, b.y), (0, 1));
    assert_eq!((c.x, c.y), (0, 0));
    assert_eq!(gs.players.len(), 3);
}

#[test]
fn test_spawn_on_wall_is_kept() {
    // The spawn cell is never validated: a player registered on a map whose
    // origin is a wall still spawns at (0, 0).
    let tiles = vec![Tile::Wall, Tile::Empty];
    let map = GameMap::new(1, 2, tiles);
    let mut gs = GameState::new(map);
    assert!(gs.add_player("p".to_string()));
    let c = gs.get_character("p").unwrap();
    assert_eq!((c.x, c.y, c.health), (0, 0, 100));
    // moving to a walkable neighbor is still allowed
    let moved = gs.move_character("p", "down").unwrap();
    assert_eq!((moved.x, moved.y), (0, 1));
    // and back onto the wall cell it is not
    assert_eq!(gs.move_character("p", "up"), Err(MoveError::Blocked));
}

#[test]
fn test_observers_receive_broadcasts() {
    let mut gs = GameState::new(empty_map(2, 2));
    gs.add_player("p".to_string());
    let h1 = gs.add_client();
    let h2 = gs.add_client();
    assert_ne!(h1, h2);

    assert!(gs.move_character("p", "right").is_ok());
    let deliveries = gs.notify_clients();
    // both observers receive exactly one snapshot of the post-move state
    assert_eq!(deliveries.len(), 2);
    assert_eq!(deliveries[0].client, h1);
    assert_eq!(deliveries[1].client, h2);
    for d in &deliveries {
        assert_eq!(d.update.players.len(), 1);
        assert_eq!(d.update.players[0].id, "p");
        assert_eq!(d.update.players[0].character.x, 1);
        assert_eq!(d.update.players[0].character.y, 0);
        assert_eq!(d.update.map.width, 2);
        assert_eq!(d.update.map.height, 2);
    }

    // after one observer leaves, a later move broadcasts to the rest only
    gs.remove_client(h1);
    assert!(gs.move_character("p", "down").is_ok());
    let later = gs.notify_clients();
    assert_eq!(later.len(), 1);
    assert_eq!(later[0].client, h2);
    assert_eq!(later[0].update.players[0].character.y, 1);
}

#[test]
fn test_remove_absent_client_is_noop() {
    let mut gs = GameState::new(empty_map(1, 1));
    let h1 = gs.add_client();
    gs.remove_client(h1 + 1000);
    assert_eq!(gs.clients, vec![h1]);
    gs.remove_client(h1);
    assert!(gs.clients.is_empty());
    gs.remove_client(h1);
    assert!(gs.clients.is_empty());
}

#[test]
fn test_snapshot_is_a_copy() {
    let mut gs = GameState::new(empty_map(2, 2));
    gs.add_player("p".to_string());
    let snap = gs.snapshot();
    assert!(gs.move_character("p", "right").is_ok());
    // the snapshot keeps the state it was taken at
    assert_eq!(snap.players[0].character.x, 0);
    assert_eq!(gs.get_character("p").unwrap().x, 1);
    assert_eq!(snap.map.width, 2);
    assert_eq!(snap.map.tiles, gs.map.tiles);
}

#[test]
fn test_invariant_checks() {
    let map = create_default_map();
    assert!(map.check_wf());
    // a ragged tile vector is rejected
    let bad = GameMap { width: 2, height: 2, tiles: vec![Tile::Empty; 3] };
    assert!(!bad.check_wf());

    let mut gs = GameState::new(map);
    gs.add_player("p".to_string());
    gs.add_player("q".to_string());
    gs.add_client();
    assert!(gs.move_character("p", "down").is_ok());
    assert!(gs.check_invariants());

    // a hand-made duplicate registration breaks the invariant
    gs.players.push(gs.players[0].clone());
    assert!(!gs.check_invariants());
}
