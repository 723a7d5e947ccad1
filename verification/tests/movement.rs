use roguelike::movement::{
    ai_take_turn, can_try_step, is_blocked, move_by, object_at, player_move_or_attack, MonsterTurn,
};
use roguelike::object::{new_monster, new_player, white, Fighter, Object, PLAYER};
use roguelike::tile::{DungeonMap, Game, Tile};

/// A 7 by 7 room: walls on the border, floor inside.
fn small_room() -> DungeonMap {
    let mut map = vec![vec![Tile::wall(); 7]; 7];
    for x in 1..6 {
        for y in 1..6 {
            map[x][y] = Tile::empty();
        }
    }
    map
}

#[test]
fn walls_block_and_floor_does_not() {
    let map = small_room();
    let objects = vec![new_player(3, 3)];
    assert!(is_blocked(0, 3, &map, &objects));
    assert!(!is_blocked(2, 2, &map, &objects));
}

#[test]
fn blocking_objects_block_and_others_do_not() {
    let map = small_room();
    let ghost = Object::new(2, 2, '%', "corpse", white(), false);
    let objects = vec![new_player(3, 3), ghost];
    assert!(is_blocked(3, 3, &map, &objects));
    assert!(!is_blocked(2, 2, &map, &objects));
}

#[test]
fn move_by_moves_onto_free_floor() {
    let map = small_room();
    let mut objects = vec![new_player(3, 3), new_monster(5, 5, true)];
    move_by(PLAYER, 1, -1, &map, &mut objects);
    assert_eq!(objects[0].pos(), (4, 2));
    assert_eq!(objects[1].pos(), (5, 5));
}

#[test]
fn move_by_stops_at_walls() {
    let map = small_room();
    let mut objects = vec![new_player(1, 1)];
    move_by(PLAYER, -1, 0, &map, &mut objects);
    assert_eq!(objects[0].pos(), (1, 1));
}

#[test]
fn move_by_stops_at_blocking_objects() {
    let map = small_room();
    let mut objects = vec![new_player(2, 2), new_monster(3, 2, false)];
    move_by(PLAYER, 1, 0, &map, &mut objects);
    assert_eq!(objects[0].pos(), (2, 2));
    move_by(1, 0, 1, &map, &mut objects);
    assert_eq!(objects[1].pos(), (3, 3));
}

#[test]
fn object_at_finds_the_first() {
    let objects = vec![new_player(2, 2), new_monster(4, 4, true), new_monster(4, 4, false)];
    assert_eq!(object_at(&objects, 4, 4), Some(1));
    assert_eq!(object_at(&objects, 2, 2), Some(0));
    assert_eq!(object_at(&objects, 3, 3), None);
}

#[test]
fn player_attacks_what_stands_in_the_way() {
    let game = Game { map: small_room() };
    let mut objects = vec![new_player(2, 2), new_monster(3, 2, true)];
    assert_eq!(player_move_or_attack(1, 0, &game, &mut objects), Some(1));
    assert_eq!(objects[0].pos(), (2, 2));
    assert_eq!(objects[1].pos(), (3, 2));
}

#[test]
fn player_attacks_even_non_blocking_objects() {
    let game = Game { map: small_room() };
    let mut objects = vec![new_player(2, 2), Object::new(2, 3, '%', "bones", white(), false)];
    assert_eq!(player_move_or_attack(0, 1, &game, &mut objects), Some(1));
    assert_eq!(objects[0].pos(), (2, 2));
}

#[test]
fn player_moves_when_nothing_is_in_the_way() {
    let game = Game { map: small_room() };
    let mut objects = vec![new_player(2, 2)];
    assert_eq!(player_move_or_attack(0, 1, &game, &mut objects), None);
    assert_eq!(objects[0].pos(), (2, 3));
    assert_eq!(player_move_or_attack(-1, 0, &game, &mut objects), None);
    assert_eq!(objects[0].pos(), (1, 3));
    assert_eq!(player_move_or_attack(-1, 0, &game, &mut objects), None);
    assert_eq!(objects[0].pos(), (1, 3));
}

#[test]
fn can_try_step_checks_the_map_edge() {
    let game = Game { map: small_room() };
    let objects = vec![new_player(0, 0), new_monster(-1, 0, true)];
    assert!(can_try_step(1, 1, &game, &objects));
    assert!(!can_try_step(0, -1, &game, &objects));
    // an object beyond the edge is attacked, not walked into
    assert!(can_try_step(-1, 0, &game, &objects));
    let far = vec![new_player(i32::MAX, 0)];
    assert!(!can_try_step(1, 0, &game, &far));
}

#[test]
fn monster_out_of_sight_waits() {
    let objects = vec![new_player(1, 1), new_monster(5, 5, true)];
    assert_eq!(ai_take_turn(1, false, &objects), MonsterTurn::Wait);
}

#[test]
fn far_monster_chases() {
    let objects = vec![new_player(1, 1), new_monster(5, 5, true)];
    assert_eq!(ai_take_turn(1, true, &objects), MonsterTurn::Chase { x: 1, y: 1 });
}

#[test]
fn monster_at_distance_two_still_chases() {
    let objects = vec![new_player(1, 1), new_monster(3, 1, true)];
    assert_eq!(ai_take_turn(1, true, &objects), MonsterTurn::Chase { x: 1, y: 1 });
}

#[test]
fn adjacent_monster_attacks_a_living_player() {
    let objects = vec![new_player(1, 1), new_monster(2, 2, false)];
    assert_eq!(ai_take_turn(1, true, &objects), MonsterTurn::Attack);
}

#[test]
fn adjacent_monster_waits_when_the_player_has_no_hit_points() {
    let mut objects = vec![new_player(1, 1), new_monster(2, 1, false)];
    objects[0].fighter = Some(Fighter { max_hp: 30, hp: 0, defense: 2, power: 5 });
    assert_eq!(ai_take_turn(1, true, &objects), MonsterTurn::Wait);
    objects[0].fighter = None;
    assert_eq!(ai_take_turn(1, true, &objects), MonsterTurn::Wait);
}
