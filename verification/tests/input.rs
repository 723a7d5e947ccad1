use roguelike::input::{handle_keys, Key, KeyCode, KeyResponse, PlayerAction};
use roguelike::object::{new_monster, new_player};
use roguelike::tile::{Game, Tile};

fn open_game() -> Game {
    Game { map: vec![vec![Tile::empty(); 10]; 10] }
}

fn key(code: KeyCode, alt: bool) -> Key {
    Key { code, alt }
}

#[test]
fn alt_enter_toggles_fullscreen() {
    let game = open_game();
    let mut objects = vec![new_player(5, 5)];
    let r = handle_keys(key(KeyCode::Enter, true), &game, &mut objects);
    assert_eq!(r, KeyResponse { action: PlayerAction::DidntTakeTurn, toggle_fullscreen: true, attacked: None });
    assert_eq!(objects[0].pos(), (5, 5));
}

#[test]
fn plain_enter_does_nothing() {
    let game = open_game();
    let mut objects = vec![new_player(5, 5)];
    let r = handle_keys(key(KeyCode::Enter, false), &game, &mut objects);
    assert_eq!(r, KeyResponse { action: PlayerAction::DidntTakeTurn, toggle_fullscreen: false, attacked: None });
}

#[test]
fn escape_exits_even_when_dead() {
    let game = open_game();
    let mut objects = vec![new_player(5, 5)];
    objects[0].alive = false;
    let r = handle_keys(key(KeyCode::Escape, false), &game, &mut objects);
    assert_eq!(r.action, PlayerAction::Exit);
    assert!(!r.toggle_fullscreen);
}

#[test]
fn arrows_move_the_living_player() {
    let game = open_game();
    let mut objects = vec![new_player(5, 5)];
    assert_eq!(handle_keys(key(KeyCode::Up, false), &game, &mut objects).action, PlayerAction::TookTurn);
    assert_eq!(objects[0].pos(), (5, 4));
    handle_keys(key(KeyCode::Down, false), &game, &mut objects);
    handle_keys(key(KeyCode::Down, false), &game, &mut objects);
    assert_eq!(objects[0].pos(), (5, 6));
    handle_keys(key(KeyCode::Left, false), &game, &mut objects);
    assert_eq!(objects[0].pos(), (4, 6));
    handle_keys(key(KeyCode::Right, true), &game, &mut objects);
    assert_eq!(objects[0].pos(), (5, 6));
}

#[test]
fn arrow_into_a_monster_attacks_it() {
    let game = open_game();
    let mut objects = vec![new_player(5, 5), new_monster(6, 5, true)];
    let r = handle_keys(key(KeyCode::Right, false), &game, &mut objects);
    assert_eq!(r, KeyResponse { action: PlayerAction::TookTurn, toggle_fullscreen: false, attacked: Some(1) });
    assert_eq!(objects[0].pos(), (5, 5));
}

#[test]
fn dead_player_cannot_move() {
    let game = open_game();
    let mut objects = vec![new_player(5, 5)];
    objects[0].alive = false;
    let r = handle_keys(key(KeyCode::Up, false), &game, &mut objects);
    assert_eq!(r.action, PlayerAction::DidntTakeTurn);
    assert_eq!(objects[0].pos(), (5, 5));
}

#[test]
fn other_keys_take_no_turn() {
    let game = open_game();
    let mut objects = vec![new_player(5, 5)];
    let r = handle_keys(key(KeyCode::Other, false), &game, &mut objects);
    assert_eq!(r.action, PlayerAction::DidntTakeTurn);
    assert_eq!(objects[0].pos(), (5, 5));
}
