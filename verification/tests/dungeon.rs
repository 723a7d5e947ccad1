use roguelike::dungeon::{
    connect_rooms, create_h_tunnel, create_room, create_v_tunnel, intersects_any, make_map,
    draw_placements, place_objects, spawn_monsters, try_room, MAP_HEIGHT, MAP_WIDTH, MAX_ROOM_MONSTERS,
};
use roguelike::geometry::Rect;
use roguelike::object::{new_player, Object, PLAYER};
use roguelike::tile::{DungeonMap, Tile};

fn rock(width: usize, height: usize) -> DungeonMap {
    vec![vec![Tile::wall(); height]; width]
}

fn is_floor(t: &Tile) -> bool {
    !t.blocked && !t.block_sight
}

#[test]
fn create_room_carves_only_the_interior() {
    let mut map = rock(12, 12);
    create_room(Rect::new(2, 3, 5, 4), &mut map);
    for x in 0..12 {
        for y in 0..12 {
            let inside = x > 2 && x < 7 && y > 3 && y < 7;
            assert_eq!(is_floor(&map[x][y]), inside, "cell ({}, {})", x, y);
        }
    }
}

#[test]
fn create_room_of_width_one_carves_nothing() {
    let mut map = rock(5, 5);
    create_room(Rect::new(1, 1, 1, 3), &mut map);
    assert!(map.iter().all(|column| column.iter().all(|t| t.blocked)));
}

#[test]
fn h_tunnel_covers_both_ends_in_either_order() {
    let mut a = rock(10, 5);
    create_h_tunnel(2, 6, 3, &mut a);
    let mut b = rock(10, 5);
    create_h_tunnel(6, 2, 3, &mut b);
    for x in 0..10 {
        for y in 0..5 {
            let on = y == 3 && (2..=6).contains(&x);
            assert_eq!(is_floor(&a[x][y]), on);
            assert_eq!(is_floor(&b[x][y]), on);
        }
    }
}

#[test]
fn v_tunnel_runs_from_y1_down_to_y2() {
    let mut map = rock(5, 10);
    create_v_tunnel(2, 7, 1, &mut map);
    for y in 0..10 {
        assert_eq!(is_floor(&map[1][y]), (2..=7).contains(&y));
    }
}

#[test]
fn v_tunnel_with_y2_above_y1_carves_only_y1() {
    let mut map = rock(5, 10);
    create_v_tunnel(7, 2, 1, &mut map);
    for y in 0..10 {
        assert_eq!(is_floor(&map[1][y]), y == 7);
    }
}

#[test]
fn connect_rooms_horizontal_first() {
    let mut map = rock(MAP_WIDTH as usize, MAP_HEIGHT as usize);
    connect_rooms((2, 3), (6, 8), true, &mut map);
    // along row 3 from x 2 to 6, then down column 6 from row 3 to 8
    for x in 2..=6 {
        assert!(is_floor(&map[x][3]));
    }
    for y in 3..=8 {
        assert!(is_floor(&map[6][y]));
    }
    assert!(map[2][8].blocked);
}

#[test]
fn connect_rooms_vertical_first() {
    let mut map = rock(MAP_WIDTH as usize, MAP_HEIGHT as usize);
    connect_rooms((2, 3), (6, 8), false, &mut map);
    // down column 2 from row 3 to 8, then along row 8 from x 2 to 6
    for y in 3..=8 {
        assert!(is_floor(&map[2][y]));
    }
    for x in 2..=6 {
        assert!(is_floor(&map[x][8]));
    }
    assert!(map[6][3].blocked);
}

#[test]
fn intersects_any_finds_a_touching_room() {
    let rooms = vec![Rect::new(0, 0, 6, 6), Rect::new(20, 20, 6, 6)];
    assert!(intersects_any(&rooms, &Rect::new(26, 10, 6, 10)));
    assert!(!intersects_any(&rooms, &Rect::new(10, 10, 6, 6)));
    assert!(!intersects_any(&Vec::new(), &Rect::new(10, 10, 6, 6)));
}

#[test]
fn place_objects_puts_monsters_on_the_room_floor() {
    let map = rock(MAP_WIDTH as usize, MAP_HEIGHT as usize);
    let room = Rect::new(10, 10, 6, 7);
    let mut objects = vec![new_player(1, 1)];
    for _ in 0..50 {
        let before = objects.len();
        place_objects(room, &map, &mut objects);
        assert!(objects.len() - before <= MAX_ROOM_MONSTERS as usize);
    }
    assert_eq!(objects[0].name, "player");
    for m in &objects[1..] {
        assert!(m.x > 10 && m.x < 16 && m.y > 10 && m.y < 17);
        assert!(m.alive && m.blocks);
        assert!(m.name == "orc" || m.name == "troll");
    }
}

#[test]
fn place_objects_makes_both_kinds_and_varied_positions() {
    let map = rock(MAP_WIDTH as usize, MAP_HEIGHT as usize);
    let room = Rect::new(10, 10, 8, 8);
    let mut objects = vec![new_player(1, 1)];
    for _ in 0..200 {
        place_objects(room, &map, &mut objects);
    }
    assert!(objects.iter().any(|o| o.name == "orc"));
    assert!(objects.iter().any(|o| o.name == "troll"));
    assert!(objects[1..].iter().any(|o| o.x != 11 || o.y != 11));
}

fn check_generated(map: &DungeonMap, objects: &[Object]) {
    assert_eq!(map.len(), MAP_WIDTH as usize);
    assert!(map.iter().all(|column| column.len() == MAP_HEIGHT as usize));
    for o in objects {
        assert!(o.x >= 0 && o.x < MAP_WIDTH && o.y >= 0 && o.y < MAP_HEIGHT);
        assert!(is_floor(&map[o.x as usize][o.y as usize]));
    }
    // the border of the map is never carved
    for x in 0..MAP_WIDTH as usize {
        assert!(map[x][0].blocked);
        assert!(map[x][MAP_HEIGHT as usize - 1].blocked);
    }
    for y in 0..MAP_HEIGHT as usize {
        assert!(map[0][y].blocked);
        assert!(map[MAP_WIDTH as usize - 1][y].blocked);
    }
}

#[test]
fn make_map_puts_everyone_on_floor() {
    for _ in 0..20 {
        let mut objects = vec![new_player(0, 0)];
        let map = make_map(&mut objects);
        check_generated(&map, &objects);
        assert_eq!(objects[PLAYER].name, "player");
        assert!(objects[1..].iter().all(|o| o.name == "orc" || o.name == "troll"));
    }
}

#[test]
fn make_map_varies_between_runs() {
    let mut starts = Vec::new();
    let mut floor_counts = Vec::new();
    for _ in 0..20 {
        let mut objects = vec![new_player(0, 0)];
        let map = make_map(&mut objects);
        starts.push(objects[PLAYER].pos());
        floor_counts.push(map.iter().flatten().filter(|t| !t.blocked).count());
    }
    assert!(starts.iter().any(|s| *s != starts[0]));
    assert!(floor_counts.iter().any(|c| *c != floor_counts[0]));
}

#[test]
fn make_map_keeps_other_objects() {
    let mut objects = vec![new_player(0, 0), Object::new(5, 5, 'x', "marker", roguelike::object::white(), false)];
    let _ = make_map(&mut objects);
    assert_eq!(objects[1].name, "marker");
    assert_eq!(objects[1].pos(), (5, 5));
}

#[test]
fn spawn_monsters_appends_one_monster_per_placement() {
    let mut objects = vec![new_player(1, 1)];
    spawn_monsters(&vec![(3, 4, true), (5, 6, false), (3, 4, false)], &mut objects);
    assert_eq!(objects.len(), 4);
    assert_eq!(objects[0].name, "player");
    assert_eq!((objects[1].name.as_str(), objects[1].pos()), ("orc", (3, 4)));
    assert_eq!((objects[2].name.as_str(), objects[2].pos()), ("troll", (5, 6)));
    assert_eq!((objects[3].name.as_str(), objects[3].pos()), ("troll", (3, 4)));
    spawn_monsters(&Vec::new(), &mut objects);
    assert_eq!(objects.len(), 4);
}

#[test]
fn draw_placements_stay_on_the_room_floor() {
    let room = Rect::new(10, 10, 6, 7);
    let mut counts = [0usize; 4];
    for _ in 0..200 {
        let p = draw_placements(room);
        assert!(p.len() <= MAX_ROOM_MONSTERS as usize);
        counts[p.len()] += 1;
        for (x, y, _) in &p {
            assert!(*x > 10 && *x < 16 && *y > 10 && *y < 17);
        }
    }
    assert!(counts.iter().filter(|c| **c > 0).count() > 1);
}

#[test]
fn try_room_keeps_the_first_room_and_moves_the_player() {
    let mut map = rock(MAP_WIDTH as usize, MAP_HEIGHT as usize);
    let mut rooms = Vec::new();
    let mut objects = vec![new_player(0, 0)];
    let first = Rect::new(2, 2, 6, 6);
    assert!(try_room(first, &vec![(4, 4, true)], true, &mut rooms, &mut map, &mut objects));
    assert_eq!(rooms.len(), 1);
    assert_eq!(objects.len(), 2);
    assert_eq!(objects[0].pos(), (5, 5));
    assert_eq!((objects[1].name.as_str(), objects[1].pos()), ("orc", (4, 4)));
    assert!(is_floor(&map[3][3]) && is_floor(&map[7][7]));
    assert!(map[2][2].blocked && map[8][8].blocked);
}

#[test]
fn try_room_rejects_a_touching_room() {
    let mut map = rock(MAP_WIDTH as usize, MAP_HEIGHT as usize);
    let mut rooms = vec![Rect::new(2, 2, 6, 6)];
    let mut objects = vec![new_player(5, 5)];
    let before = map.clone();
    assert!(!try_room(Rect::new(8, 2, 6, 6), &vec![(10, 4, false)], true, &mut rooms, &mut map, &mut objects));
    assert_eq!(rooms.len(), 1);
    assert_eq!(objects.len(), 1);
    for x in 0..MAP_WIDTH as usize {
        for y in 0..MAP_HEIGHT as usize {
            assert_eq!(map[x][y].blocked, before[x][y].blocked);
        }
    }
}

#[test]
fn try_room_joins_a_later_room_to_the_last_one() {
    let mut map = rock(MAP_WIDTH as usize, MAP_HEIGHT as usize);
    let mut rooms = Vec::new();
    let mut objects = vec![new_player(0, 0)];
    assert!(try_room(Rect::new(2, 2, 6, 6), &Vec::new(), false, &mut rooms, &mut map, &mut objects));
    assert!(try_room(Rect::new(20, 10, 6, 6), &vec![(22, 12, false)], true, &mut rooms, &mut map, &mut objects));
    assert_eq!(rooms.len(), 2);
    // the player stays in the first room
    assert_eq!(objects[0].pos(), (5, 5));
    assert_eq!((objects[1].name.as_str(), objects[1].pos()), ("troll", (22, 12)));
    // along row 5 from x 5 to 23, then down column 23 from row 5 to 13
    for x in 5..=23 {
        assert!(is_floor(&map[x][5]));
    }
    for y in 5..=13 {
        assert!(is_floor(&map[23][y]));
    }
}
