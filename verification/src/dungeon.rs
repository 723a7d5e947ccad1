use vstd::prelude::*;
use crate::geometry::{Rect, center_of, center_fits, rects_intersect};
use crate::tile::{Tile, DungeonMap, grid, in_grid, carve, floor_tile, wall_tile};
use crate::object::{Object, PLAYER, moved_to, new_monster, is_new_orc, is_new_troll};
use crate::random::{random_in_range, coin_flip, chance};

verus! {

/// The cells strictly inside the rectangle: the floor of a room.
pub open spec fn room_interior(r: Rect) -> spec_fn(int, int) -> bool {
    |x: int, y: int| r.x1 < x < r.x2 && r.y1 < y < r.y2
}

/// The part of the room's interior that lies before column `x`, or in
/// column `x` before row `y`.
pub open spec fn room_carved_up_to(r: Rect, x: int, y: int) -> spec_fn(int, int) -> bool {
    |px: int, py: int| room_interior(r)(px, py) && (px < x || (px == x && py < y))
}

/// Carve the floor of `room` into the map: every tile strictly inside it
/// becomes floor, every other tile stays as it was.
pub fn create_room(room: Rect, map: &mut DungeonMap)
    requires
        room.x1 < i32::MAX,
        room.x1 + 1 < room.x2 ==> room.y1 < i32::MAX,
        forall|x: int, y: int| #[trigger] room_interior(room)(x, y) ==> in_grid(grid(old(map)), x, y),
    ensures
        grid(final(map)) == carve(grid(old(map)), room_interior(room)),
{
    let ghost g0 = grid(map);
    let mut x = room.x1 + 1;
    assert(grid(map) =~~= carve(g0, room_carved_up_to(room, x as int, i32::MIN as int)));
    while x < room.x2
        invariant
            room.x1 < x,
            x <= room.x2 || room.x1 + 1 >= room.x2,
            room.x1 + 1 < room.x2 ==> room.y1 < i32::MAX,
            forall|px: int, py: int| #[trigger] room_interior(room)(px, py) ==> in_grid(g0, px, py),
            grid(map) == carve(g0, room_carved_up_to(room, x as int, i32::MIN as int)),
        decreases room.x2 - x,
    {
        let mut y = room.y1 + 1;
        assert(grid(map) =~~= carve(
            g0,
            room_carved_up_to(room, x as int, y as int),
        ));
        while y < room.y2
            invariant
                room.x1 < x < room.x2,
                room.y1 < y,
                y <= room.y2 || room.y1 + 1 >= room.y2,
                forall|px: int, py: int| #[trigger] room_interior(room)(px, py) ==> in_grid(g0, px, py),
                grid(map) == carve(
                    g0,
                    room_carved_up_to(room, x as int, y as int),
                ),
            decreases room.y2 - y,
        {
            assert(room_interior(room)(x as int, y as int));
            proof {
                crate::tile::lemma_grid_columns(map);
                crate::tile::lemma_carve_shape(
                    g0,
                    room_carved_up_to(room, x as int, y as int),
                );
            }
            assert(in_grid(g0, x as int, y as int));
            assert(carve(g0, room_carved_up_to(room, x as int, y as int))[x as int].len() == g0[x as int].len());
            assert(grid(map)[x as int].len() == g0[x as int].len());
            assert(map@[x as int]@.len() == g0[x as int].len());
            let ghost before = map@;
            map[x as usize][y as usize] = Tile::empty();
            proof {
                crate::tile::lemma_grid_set(before, map@, x as int, y as int, floor_tile());
                assert(grid(map) =~~= carve(
                    g0,
                    room_carved_up_to(room, x as int, y + 1),
                ));
            }
            y = y + 1;
        }
        assert(grid(map) =~~= carve(g0, room_carved_up_to(room, x + 1, i32::MIN as int)));
        x = x + 1;
    }
    assert(grid(map) =~~= carve(g0, room_interior(room)));
}

} // verus!

verus! {

/// The smaller of two coordinates.
pub open spec fn min_coord(a: int, b: int) -> int {
    if a <= b {
        a
    } else {
        b
    }
}

/// The larger of two coordinates.
pub open spec fn max_coord(a: int, b: int) -> int {
    if a >= b {
        a
    } else {
        b
    }
}

/// The cells of row `y` from the smaller of `x1`, `x2` to the larger, both ends included.
pub open spec fn h_tunnel(x1: int, x2: int, y: int) -> spec_fn(int, int) -> bool {
    |px: int, py: int| py == y && min_coord(x1, x2) <= px <= max_coord(x1, x2)
}

/// The cells of column `x` that `create_v_tunnel` carves: from row `y1` up to
/// the larger of `y1`, `y2`, both ends included. When `y2 < y1` this is the
/// single cell `(x, y1)`.
pub open spec fn v_tunnel(y1: int, y2: int, x: int) -> spec_fn(int, int) -> bool {
    |px: int, py: int| px == x && y1 <= py <= max_coord(y1, y2)
}

/// The part of a horizontal run that lies before column `upto`.
spec fn h_run_before(x1: int, x2: int, y: int, upto: int) -> spec_fn(int, int) -> bool {
    |px: int, py: int| h_tunnel(x1, x2, y)(px, py) && px < upto
}

/// The part of a vertical run that lies before row `upto`.
spec fn v_run_before(y1: int, y2: int, x: int, upto: int) -> spec_fn(int, int) -> bool {
    |px: int, py: int| v_tunnel(y1, y2, x)(px, py) && py < upto
}

/// Carve a horizontal corridor along row `y` between columns `x1` and `x2`.
pub fn create_h_tunnel(x1: i32, x2: i32, y: i32, map: &mut DungeonMap)
    requires
        max_coord(x1 as int, x2 as int) < i32::MAX,
        forall|px: int, py: int| #[trigger] h_tunnel(x1 as int, x2 as int, y as int)(px, py) ==> in_grid(grid(old(map)), px, py),
    ensures
        grid(final(map)) == carve(grid(old(map)), h_tunnel(x1 as int, x2 as int, y as int)),
{
    let ghost g0 = grid(map);
    let lo = if x1 <= x2 { x1 } else { x2 };
    let hi = if x1 >= x2 { x1 } else { x2 };
    let end = hi + 1;
    let mut x = lo;
    assert(grid(map) =~~= carve(g0, h_run_before(x1 as int, x2 as int, y as int, x as int)));
    while x < end
        invariant
            lo <= x <= end,
            lo == min_coord(x1 as int, x2 as int),
            end == max_coord(x1 as int, x2 as int) + 1,
            forall|px: int, py: int| #[trigger] h_tunnel(x1 as int, x2 as int, y as int)(px, py) ==> in_grid(g0, px, py),
            grid(map) == carve(g0, h_run_before(x1 as int, x2 as int, y as int, x as int)),
        decreases end - x,
    {
        assert(h_tunnel(x1 as int, x2 as int, y as int)(x as int, y as int));
        proof {
            crate::tile::lemma_grid_columns(map);
            crate::tile::lemma_carve_shape(g0, h_run_before(x1 as int, x2 as int, y as int, x as int));
        }
        assert(grid(map)[x as int].len() == g0[x as int].len());
        let ghost before = map@;
        map[x as usize][y as usize] = Tile::empty();
        proof {
            crate::tile::lemma_grid_set(before, map@, x as int, y as int, floor_tile());
            crate::tile::lemma_carve_one_more(
                g0,
                h_run_before(x1 as int, x2 as int, y as int, x as int),
                h_run_before(x1 as int, x2 as int, y as int, x + 1),
                x as int,
                y as int,
            );
        }
        x = x + 1;
    }
    assert(grid(map) =~~= carve(g0, h_tunnel(x1 as int, x2 as int, y as int)));
}

/// Carve a vertical corridor along column `x`, from row `y1` down to the
/// larger of `y1` and `y2`.
pub fn create_v_tunnel(y1: i32, y2: i32, x: i32, map: &mut DungeonMap)
    requires
        max_coord(y1 as int, y2 as int) < i32::MAX,
        forall|px: int, py: int| #[trigger] v_tunnel(y1 as int, y2 as int, x as int)(px, py) ==> in_grid(grid(old(map)), px, py),
    ensures
        grid(final(map)) == carve(grid(old(map)), v_tunnel(y1 as int, y2 as int, x as int)),
{
    let ghost g0 = grid(map);
    let lo = y1;
    let hi = if y1 >= y2 { y1 } else { y2 };
    let end = hi + 1;
    let mut y = lo;
    assert(grid(map) =~~= carve(g0, v_run_before(y1 as int, y2 as int, x as int, y as int)));
    while y < end
        invariant
            lo <= y <= end,
            lo == y1,
            end == max_coord(y1 as int, y2 as int) + 1,
            forall|px: int, py: int| #[trigger] v_tunnel(y1 as int, y2 as int, x as int)(px, py) ==> in_grid(g0, px, py),
            grid(map) == carve(g0, v_run_before(y1 as int, y2 as int, x as int, y as int)),
        decreases end - y,
    {
        assert(v_tunnel(y1 as int, y2 as int, x as int)(x as int, y as int));
        proof {
            crate::tile::lemma_grid_columns(map);
            crate::tile::lemma_carve_shape(g0, v_run_before(y1 as int, y2 as int, x as int, y as int));
        }
        assert(grid(map)[x as int].len() == g0[x as int].len());
        let ghost before = map@;
        map[x as usize][y as usize] = Tile::empty();
        proof {
            crate::tile::lemma_grid_set(before, map@, x as int, y as int, floor_tile());
            crate::tile::lemma_carve_one_more(
                g0,
                v_run_before(y1 as int, y2 as int, x as int, y as int),
                v_run_before(y1 as int, y2 as int, x as int, y + 1),
                x as int,
                y as int,
            );
        }
        y = y + 1;
    }
    assert(grid(map) =~~= carve(g0, v_tunnel(y1 as int, y2 as int, x as int)));
}

} // verus!

verus! {

/// Width of the dungeon map, in tiles.
pub const MAP_WIDTH: i32 = 80;

/// Height of the dungeon map, in tiles.
pub const MAP_HEIGHT: i32 = 45;

/// Largest width or height of a room.
pub const ROOM_MAX_SIZE: i32 = 10;

/// Smallest width or height of a room.
pub const ROOM_MIN_SIZE: i32 = 6;

/// How many rooms the generator tries to place.
pub const MAX_ROOMS: i32 = 30;

/// The most monsters a room can hold when it is made.
pub const MAX_ROOM_MONSTERS: i32 = 3;

/// A monster as `place_objects` makes one for `room`: an orc or a troll,
/// standing on the room's floor.
pub open spec fn spawned_in(o: Object, room: Rect) -> bool {
    &&& room_interior(room)(o.x as int, o.y as int)
    &&& (is_new_orc(o, o.x, o.y) || is_new_troll(o, o.x, o.y))
}

/// The monster that a placement `(x, y, orc)` asks for: an orc at `(x, y)`
/// when `orc` holds, a troll there otherwise.
pub open spec fn spawned_as(o: Object, placement: (i32, i32, bool)) -> bool {
    if placement.2 {
        is_new_orc(o, placement.0, placement.1)
    } else {
        is_new_troll(o, placement.0, placement.1)
    }
}

/// `after` is `before` with one monster appended per placement, in order.
pub open spec fn spawned_all(before: Seq<Object>, after: Seq<Object>, placements: Seq<(i32, i32, bool)>) -> bool {
    &&& after.len() == before.len() + placements.len()
    &&& after.subrange(0, before.len() as int) == before
    &&& forall|k: int|
        0 <= k < placements.len() ==> spawned_as(#[trigger] after[before.len() + k], placements[k])
}

/// Append one monster per placement `(x, y, orc)`: an orc at `(x, y)` when
/// `orc` holds, a troll there otherwise.
pub fn spawn_monsters(placements: &Vec<(i32, i32, bool)>, objects: &mut Vec<Object>)
    ensures
        spawned_all(old(objects)@, final(objects)@, placements@),
{
    let mut i: usize = 0;
    assert(objects@.subrange(0, objects@.len() as int) =~= objects@);
    while i < placements.len()
        invariant
            i <= placements@.len(),
            spawned_all(old(objects)@, objects@, placements@.subrange(0, i as int)),
        decreases placements@.len() - i,
    {
        let (x, y, orc) = placements[i];
        let monster = new_monster(x, y, orc);
        let ghost before = objects@;
        objects.push(monster);
        proof {
            assert(objects@.subrange(0, old(objects)@.len() as int) =~= before.subrange(
                0,
                old(objects)@.len() as int,
            ));
            let done = placements@.subrange(0, i + 1);
            assert forall|k: int| 0 <= k < done.len() implies spawned_as(
                #[trigger] objects@[old(objects)@.len() + k],
                done[k],
            ) by {
                if k < i {
                    assert(placements@.subrange(0, i as int)[k] == done[k]);
                    assert(objects@[old(objects)@.len() + k] == before[old(objects)@.len() + k]);
                }
            }
        }
        i = i + 1;
    }
    assert(placements@.subrange(0, placements@.len() as int) =~= placements@);
}

/// The monsters' spots are all on the floor of `room`.
pub open spec fn placements_in(placements: Seq<(i32, i32, bool)>, room: Rect) -> bool {
    &&& placements.len() <= MAX_ROOM_MONSTERS
    &&& forall|k: int|
        0 <= k < placements.len() ==> room_interior(room)(
            #[trigger] placements[k].0 as int,
            placements[k].1 as int,
        )
}

/// Draw the monsters for `room`: between none and `MAX_ROOM_MONSTERS`
/// placements `(x, y, orc)`, each at a random spot on the room's floor and an
/// orc with chance 4 in 5. The draws come from `rand`: all that is claimed of
/// them is where they may fall.
pub fn draw_placements(room: Rect) -> (placements: Vec<(i32, i32, bool)>)
    requires
        room.x1 + 1 < room.x2,
        room.y1 + 1 < room.y2,
    ensures
        placements_in(placements@, room),
{
    let num_monsters = random_in_range(0, MAX_ROOM_MONSTERS + 1);
    let mut placements: Vec<(i32, i32, bool)> = Vec::new();
    let mut placed: i32 = 0;
    while placed < num_monsters
        invariant
            0 <= placed <= num_monsters <= MAX_ROOM_MONSTERS,
            room.x1 + 1 < room.x2,
            room.y1 + 1 < room.y2,
            placements@.len() == placed,
            forall|k: int|
                0 <= k < placements@.len() ==> room_interior(room)(
                    #[trigger] placements@[k].0 as int,
                    placements@[k].1 as int,
                ),
        decreases num_monsters - placed,
    {
        let x = random_in_range(room.x1 + 1, room.x2);
        let y = random_in_range(room.y1 + 1, room.y2);
        let orc = chance(4, 5);
        placements.push((x, y, orc));
        placed = placed + 1;
    }
    placements
}

/// Put between none and `MAX_ROOM_MONSTERS` monsters on the floor of `room`,
/// each an orc with chance 4 in 5 and a troll otherwise. They are appended to
/// `objects`; the objects already there are kept as they were. How many
/// there are, where they stand and which kind they are is drawn at random:
/// the result is what `spawn_monsters` makes of some list of at most
/// `MAX_ROOM_MONSTERS` placements on the room's floor.
pub fn place_objects(room: Rect, map: &DungeonMap, objects: &mut Vec<Object>)
    requires
        room.x1 + 1 < room.x2,
        room.y1 + 1 < room.y2,
    ensures
        old(objects)@.len() <= final(objects)@.len() <= old(objects)@.len() + MAX_ROOM_MONSTERS,
        final(objects)@.subrange(0, old(objects)@.len() as int) == old(objects)@,
        forall|i: int|
            old(objects)@.len() <= i < final(objects)@.len() ==> #[trigger] spawned_in(
                final(objects)@[i],
                room,
            ),
        exists|placements: Seq<(i32, i32, bool)>|
            placements_in(placements, room) && #[trigger] spawned_all(
                old(objects)@,
                final(objects)@,
                placements,
            ),
{
    let placements = draw_placements(room);
    spawn_monsters(&placements, objects);
    proof {
        assert forall|i: int|
            old(objects)@.len() <= i < objects@.len() implies #[trigger] spawned_in(objects@[i], room) by {
            let k = i - old(objects)@.len();
            assert(spawned_as(objects@[old(objects)@.len() + k], placements@[k]));
            assert(room_interior(room)(placements@[k].0 as int, placements@[k].1 as int));
        }
    }
}

} // verus!

verus! {

/// A map of the given size made of walls only.
pub open spec fn solid_rock(width: int, height: int) -> Seq<Seq<Tile>> {
    Seq::new(width as nat, |x: int| Seq::new(height as nat, |y: int| wall_tile()))
}

/// A room as the generator draws it: its width and height between
/// `ROOM_MIN_SIZE` and `ROOM_MAX_SIZE`, its corner chosen so that it lies
/// inside the map.
pub open spec fn room_fits(r: Rect) -> bool {
    &&& ROOM_MIN_SIZE <= r.x2 - r.x1 <= ROOM_MAX_SIZE
    &&& ROOM_MIN_SIZE <= r.y2 - r.y1 <= ROOM_MAX_SIZE
    &&& 0 <= r.x1 && r.x2 < MAP_WIDTH
    &&& 0 <= r.y1 && r.y2 < MAP_HEIGHT
}

/// Rooms as the generator keeps them: each fits the map, no two touch or
/// overlap, and there are at most `MAX_ROOMS` of them.
pub open spec fn rooms_apart(rooms: Seq<Rect>) -> bool {
    &&& rooms.len() <= MAX_ROOMS
    &&& forall|i: int| 0 <= i < rooms.len() ==> #[trigger] room_fits(rooms[i])
    &&& forall|i: int, j: int|
        0 <= i < j < rooms.len() ==> !rects_intersect(#[trigger] rooms[j], #[trigger] rooms[i])
}

/// The two corridors that join the center `from` of the previous room to
/// the center `to` of the new one: along `from`'s row and then down `to`'s
/// column when `horizontal_first`, down `from`'s column and then along
/// `to`'s row otherwise.
pub open spec fn corridor(
    g: Seq<Seq<Tile>>,
    from: (int, int),
    to: (int, int),
    horizontal_first: bool,
) -> Seq<Seq<Tile>> {
    if horizontal_first {
        carve(carve(g, h_tunnel(from.0, to.0, from.1)), v_tunnel(from.1, to.1, to.0))
    } else {
        carve(carve(g, v_tunnel(from.1, to.1, from.0)), h_tunnel(from.0, to.0, to.1))
    }
}

/// The cells that `corridor` turns into floor.
pub open spec fn corridor_cells(from: (int, int), to: (int, int), horizontal_first: bool) -> spec_fn(int, int) -> bool {
    if horizontal_first {
        |x: int, y: int| h_tunnel(from.0, to.0, from.1)(x, y) || v_tunnel(from.1, to.1, to.0)(x, y)
    } else {
        |x: int, y: int| v_tunnel(from.1, to.1, from.0)(x, y) || h_tunnel(from.0, to.0, to.1)(x, y)
    }
}

/// The map after room `room` is added to a map whose rooms so far are
/// `rooms`: its floor is carved and, unless it is the first room, it is
/// joined to the last of `rooms` by corridors in the order `horizontal_first` says.
pub open spec fn room_added(g: Seq<Seq<Tile>>, rooms: Seq<Rect>, room: Rect, horizontal_first: bool) -> Seq<Seq<Tile>> {
    let carved = carve(g, room_interior(room));
    if rooms.len() == 0 {
        carved
    } else {
        corridor(carved, center_of(rooms.last()), center_of(room), horizontal_first)
    }
}

/// The map that the generator builds when it keeps `rooms`, in this order,
/// and joins each room after the first to the one before it as `coins` says
/// (`coins[i]` for room `i`; `coins[0]` plays no part).
pub open spec fn dungeon(rooms: Seq<Rect>, coins: Seq<bool>) -> Seq<Seq<Tile>>
    decreases rooms.len(),
{
    if rooms.len() == 0 {
        solid_rock(MAP_WIDTH as int, MAP_HEIGHT as int)
    } else {
        room_added(
            dungeon(rooms.drop_last(), coins.drop_last()),
            rooms.drop_last(),
            rooms.last(),
            coins.last(),
        )
    }
}

/// `room` touches or overlaps one of `rooms`.
pub open spec fn touches_any(rooms: Seq<Rect>, room: Rect) -> bool {
    exists|i: int| 0 <= i < rooms.len() && rects_intersect(room, #[trigger] rooms[i])
}

/// The rooms that the generator keeps of the rooms it draws, `candidates`,
/// in order: each candidate that touches no room kept before it.
pub open spec fn kept(candidates: Seq<Rect>) -> Seq<Rect>
    decreases candidates.len(),
{
    if candidates.len() == 0 {
        Seq::empty()
    } else {
        let before = kept(candidates.drop_last());
        if touches_any(before, candidates.last()) {
            before
        } else {
            before.push(candidates.last())
        }
    }
}

/// How many monsters the placements of all rooms ask for.
pub open spec fn total(placements: Seq<Seq<(i32, i32, bool)>>) -> int
    decreases placements.len(),
{
    if placements.len() == 0 {
        0
    } else {
        total(placements.drop_last()) + placements.last().len()
    }
}

/// The grid has the map's size: `MAP_WIDTH` columns of `MAP_HEIGHT` tiles.
pub open spec fn full_size(g: Seq<Seq<Tile>>) -> bool {
    &&& g.len() == MAP_WIDTH
    &&& forall|x: int| 0 <= x < g.len() ==> #[trigger] g[x].len() == MAP_HEIGHT
}

/// What `make_map` leaves behind when it kept `rooms` and tossed `coins`:
/// the map is `dungeon(rooms, coins)`; the player (object `PLAYER`) stands at
/// the center of the first room, or where it stood if no room was kept; the
/// other objects that were there are unchanged; and every object added is a
/// monster on the floor of one of the rooms, at most `MAX_ROOM_MONSTERS` per room.
pub open spec fn generated(
    rooms: Seq<Rect>,
    coins: Seq<bool>,
    before: Seq<Object>,
    after: Seq<Object>,
    g: Seq<Seq<Tile>>,
) -> bool {
    &&& rooms_apart(rooms)
    &&& coins.len() == rooms.len()
    &&& g == dungeon(rooms, coins)
    &&& before.len() <= after.len() <= before.len() + MAX_ROOM_MONSTERS * rooms.len()
    &&& after[PLAYER as int] == (if rooms.len() == 0 {
        before[PLAYER as int]
    } else {
        moved_to(
            before[PLAYER as int],
            center_of(rooms[0]).0 as i32,
            center_of(rooms[0]).1 as i32,
        )
    })
    &&& forall|i: int| 0 <= i < before.len() && i != PLAYER ==> after[i] == before[i]
    &&& forall|i: int|
        before.len() <= i < after.len() ==> exists|j: int|
            0 <= j < rooms.len() && spawned_in(#[trigger] after[i], #[trigger] rooms[j])
}

/// The objects after `room` is added to the rooms `rooms`, its monsters
/// placed as `placements` says: one monster per placement is appended, and
/// when `room` is the first room the player moves to its center; all else
/// stays as it was.
pub open spec fn room_objects(
    before: Seq<Object>,
    after: Seq<Object>,
    rooms: Seq<Rect>,
    room: Rect,
    placements: Seq<(i32, i32, bool)>,
) -> bool {
    &&& after.len() == before.len() + placements.len()
    &&& after.subrange(0, before.len() as int) == (if rooms.len() == 0 {
        before.update(
            PLAYER as int,
            moved_to(before[PLAYER as int], center_of(room).0 as i32, center_of(room).1 as i32),
        )
    } else {
        before
    })
    &&& forall|k: int|
        0 <= k < placements.len() ==> spawned_as(#[trigger] after[before.len() + k], placements[k])
}

/// What `make_map` leaves behind when it drew the rooms `candidates`, tossed
/// `coins` for the rooms it kept and placed their monsters as `placements`
/// says (`coins[j]` and `placements[j]` for the `j`-th room kept): the rooms
/// kept are `kept(candidates)`, the result is `generated` from them, and the
/// objects added are exactly the monsters of the placements, room by room,
/// in order.
pub open spec fn generated_from(
    candidates: Seq<Rect>,
    coins: Seq<bool>,
    placements: Seq<Seq<(i32, i32, bool)>>,
    before: Seq<Object>,
    after: Seq<Object>,
    g: Seq<Seq<Tile>>,
) -> bool {
    let rooms = kept(candidates);
    &&& generated(rooms, coins, before, after, g)
    &&& placements.len() == rooms.len()
    &&& forall|j: int| 0 <= j < rooms.len() ==> placements_in(#[trigger] placements[j], rooms[j])
    &&& after.len() == before.len() + total(placements)
    &&& forall|j: int, k: int|
        0 <= j < placements.len() && 0 <= k < placements[j].len() ==> spawned_as(
            after[before.len() + total(placements.take(j)) + k],
            #[trigger] placements[j][k],
        )
}

/// Try to add the drawn room `candidate` to the dungeon. When it touches or
/// overlaps a room already kept, nothing changes and `false` is returned.
/// Otherwise it is kept: its floor is carved, one monster per placement is
/// appended to `objects`, the player moves to its center when it is the
/// first room, and otherwise it is joined to the last room kept by
/// corridors in the order `horizontal_first` says.
pub fn try_room(
    candidate: Rect,
    placements: &Vec<(i32, i32, bool)>,
    horizontal_first: bool,
    rooms: &mut Vec<Rect>,
    map: &mut DungeonMap,
    objects: &mut Vec<Object>,
) -> (was_kept: bool)
    requires
        room_fits(candidate),
        forall|i: int| 0 <= i < old(rooms)@.len() ==> #[trigger] room_fits(old(rooms)@[i]),
        full_size(grid(old(map))),
        PLAYER < old(objects)@.len(),
    ensures
        was_kept == !touches_any(old(rooms)@, candidate),
        !was_kept ==> final(rooms)@ == old(rooms)@ && grid(final(map)) == grid(old(map))
            && final(objects)@ == old(objects)@,
        was_kept ==> final(rooms)@ == old(rooms)@.push(candidate),
        was_kept ==> grid(final(map)) == room_added(
            grid(old(map)),
            old(rooms)@,
            candidate,
            horizontal_first,
        ),
        was_kept ==> room_objects(old(objects)@, final(objects)@, old(rooms)@, candidate, placements@),
        full_size(grid(final(map))),
{
    if intersects_any(rooms, &candidate) {
        return false;
    }
    let ghost g0 = grid(map);
    proof { lemma_center_on_map(candidate); }
    create_room(candidate, map);
    proof { lemma_carve_full_size(g0, room_interior(candidate)); }
    let ghost objs0 = objects@;
    spawn_monsters(placements, objects);
    let ghost objs1 = objects@;
    let (new_x, new_y) = candidate.center();
    if rooms.len() == 0 {
        objects[PLAYER].set_pos(new_x, new_y);
    } else {
        let last = rooms.len() - 1;
        proof { lemma_center_on_map(rooms@[last as int]); }
        let (prev_x, prev_y) = rooms[last].center();
        connect_rooms((prev_x, prev_y), (new_x, new_y), horizontal_first, map);
    }
    rooms.push(candidate);
    proof {
        assert(objects@.subrange(0, objs0.len() as int) =~= (if old(rooms)@.len() == 0 {
            objs0.update(
                PLAYER as int,
                moved_to(objs0[PLAYER as int], center_of(candidate).0 as i32, center_of(candidate).1 as i32),
            )
        } else {
            objs0
        }));
        assert forall|k: int| 0 <= k < placements@.len() implies spawned_as(
            #[trigger] objects@[objs0.len() + k],
            placements@[k],
        ) by {
            assert(objects@[objs0.len() + k] == objs1[objs0.len() + k]);
        }
    }
    true
}

/// A map of `MAP_WIDTH` by `MAP_HEIGHT` walls.
fn solid_map() -> (map: DungeonMap)
    ensures
        grid(&map) == solid_rock(MAP_WIDTH as int, MAP_HEIGHT as int),
{
    let mut map: DungeonMap = Vec::new();
    let mut x: i32 = 0;
    while x < MAP_WIDTH
        invariant
            0 <= x <= MAP_WIDTH,
            map@.len() == x,
            forall|i: int| 0 <= i < x ==> #[trigger] map@[i]@ == Seq::new(MAP_HEIGHT as nat, |y: int| wall_tile()),
        decreases MAP_WIDTH - x,
    {
        let mut column: Vec<Tile> = Vec::new();
        let mut y: i32 = 0;
        while y < MAP_HEIGHT
            invariant
                0 <= y <= MAP_HEIGHT,
                column@.len() == y,
                forall|j: int| 0 <= j < y ==> #[trigger] column@[j] == wall_tile(),
            decreases MAP_HEIGHT - y,
        {
            column.push(Tile::wall());
            y = y + 1;
        }
        assert(column@ =~= Seq::new(MAP_HEIGHT as nat, |y: int| wall_tile()));
        map.push(column);
        x = x + 1;
    }
    assert(grid(&map) =~= solid_rock(MAP_WIDTH as int, MAP_HEIGHT as int));
    map
}

} // verus!

verus! {

/// `(x, y)` is a cell of a full-size map.
pub open spec fn on_map(p: (int, int)) -> bool {
    0 <= p.0 < MAP_WIDTH && 0 <= p.1 < MAP_HEIGHT
}

/// Carving keeps a full-size map full-size.
proof fn lemma_carve_full_size(g: Seq<Seq<Tile>>, region: spec_fn(int, int) -> bool)
    requires
        full_size(g),
    ensures
        full_size(carve(g, region)),
{
    crate::tile::lemma_carve_shape(g, region);
}

/// Dig the corridors from the center `from` of one room to the center `to`
/// of the next, in the order that `horizontal_first` picks.
pub fn connect_rooms(from: (i32, i32), to: (i32, i32), horizontal_first: bool, map: &mut DungeonMap)
    requires
        full_size(grid(old(map))),
        on_map((from.0 as int, from.1 as int)),
        on_map((to.0 as int, to.1 as int)),
    ensures
        grid(final(map)) == corridor(
            grid(old(map)),
            (from.0 as int, from.1 as int),
            (to.0 as int, to.1 as int),
            horizontal_first,
        ),
        full_size(grid(final(map))),
{
    let ghost g0 = grid(map);
    if horizontal_first {
        create_h_tunnel(from.0, to.0, from.1, map);
        proof { lemma_carve_full_size(g0, h_tunnel(from.0 as int, to.0 as int, from.1 as int)); }
        let ghost g1 = grid(map);
        create_v_tunnel(from.1, to.1, to.0, map);
        proof { lemma_carve_full_size(g1, v_tunnel(from.1 as int, to.1 as int, to.0 as int)); }
    } else {
        create_v_tunnel(from.1, to.1, from.0, map);
        proof { lemma_carve_full_size(g0, v_tunnel(from.1 as int, to.1 as int, from.0 as int)); }
        let ghost g1 = grid(map);
        create_h_tunnel(from.0, to.0, to.1, map);
        proof { lemma_carve_full_size(g1, h_tunnel(from.0 as int, to.0 as int, to.1 as int)); }
    }
}

/// Whether `room` touches or overlaps any of `rooms`.
pub fn intersects_any(rooms: &Vec<Rect>, room: &Rect) -> (b: bool)
    ensures
        b == exists|i: int| 0 <= i < rooms@.len() && rects_intersect(*room, #[trigger] rooms@[i]),
{
    let mut i: usize = 0;
    while i < rooms.len()
        invariant
            i <= rooms@.len(),
            forall|k: int| 0 <= k < i ==> !rects_intersect(*room, #[trigger] rooms@[k]),
        decreases rooms@.len() - i,
    {
        if room.intersects_with(&rooms[i]) {
            return true;
        }
        i = i + 1;
    }
    false
}

} // verus!

verus! {

/// The center of a room that fits the map is a cell of the map.
proof fn lemma_center_on_map(r: Rect)
    requires
        room_fits(r),
    ensures
        center_fits(r),
        on_map(center_of(r)),
        i32::MIN <= center_of(r).0 <= i32::MAX,
        i32::MIN <= center_of(r).1 <= i32::MAX,
{
}

/// What `dungeon` gives for one more room.
proof fn lemma_dungeon_step(rooms: Seq<Rect>, coins: Seq<bool>, room: Rect, coin: bool)
    requires
        coins.len() == rooms.len(),
    ensures
        dungeon(rooms.push(room), coins.push(coin)) == room_added(dungeon(rooms, coins), rooms, room, coin),
{
    assert(rooms.push(room).drop_last() =~= rooms);
    assert(coins.push(coin).drop_last() =~= coins);
}

/// What `kept` gives for one more candidate.
proof fn lemma_kept_step(candidates: Seq<Rect>, room: Rect)
    ensures
        kept(candidates.push(room)) == (if touches_any(kept(candidates), room) {
            kept(candidates)
        } else {
            kept(candidates).push(room)
        }),
{
    assert(candidates.push(room).drop_last() =~= candidates);
}

/// What `total` gives for one more room's placements.
proof fn lemma_total_step(placements: Seq<Seq<(i32, i32, bool)>>, p: Seq<(i32, i32, bool)>)
    ensures
        total(placements.push(p)) == total(placements) + p.len(),
{
    assert(placements.push(p).drop_last() =~= placements);
}

/// The placements before room `j` ask for no more monsters than all of
/// them, less room `j`'s own.
proof fn lemma_total_prefix(placements: Seq<Seq<(i32, i32, bool)>>, j: int)
    requires
        0 <= j < placements.len(),
    ensures
        0 <= total(placements.take(j)),
        total(placements.take(j)) + placements[j].len() <= total(placements),
    decreases placements.len(),
{
    lemma_total_nonneg(placements.take(j));
    if j < placements.len() - 1 {
        let earlier = placements.drop_last();
        assert(earlier.take(j) =~= placements.take(j));
        assert(earlier[j] == placements[j]);
        lemma_total_prefix(earlier, j);
    } else {
        assert(placements.take(j) =~= placements.drop_last());
    }
}

/// No placement list asks for a negative number of monsters.
proof fn lemma_total_nonneg(placements: Seq<Seq<(i32, i32, bool)>>)
    ensures
        total(placements) >= 0,
    decreases placements.len(),
{
    if placements.len() > 0 {
        lemma_total_nonneg(placements.drop_last());
    }
}

/// Build a new dungeon: try `MAX_ROOMS` times to place a room of random
/// size at a random spot, keep it when it touches no room kept before, carve
/// it, put monsters in it, and join it to the room kept before it by two
/// corridors in a random order (see `try_room`). The player is put at the
/// center of the first room. The first try always succeeds, so at least one
/// room is made. The objects list must hold the player, at index `PLAYER`.
pub fn make_map(objects: &mut Vec<Object>) -> (map: DungeonMap)
    requires
        old(objects)@.len() > PLAYER,
    ensures
        exists|candidates: Seq<Rect>, coins: Seq<bool>, placements: Seq<Seq<(i32, i32, bool)>>|
            #![trigger generated_from(candidates, coins, placements, old(objects)@, final(objects)@, grid(&map))]
            {
                &&& candidates.len() == MAX_ROOMS
                &&& forall|i: int| 0 <= i < candidates.len() ==> #[trigger] room_fits(candidates[i])
                &&& kept(candidates).len() >= 1
                &&& generated_from(candidates, coins, placements, old(objects)@, final(objects)@, grid(&map))
            },
{
    let mut map = solid_map();
    let mut rooms: Vec<Rect> = Vec::new();
    let ghost mut candidates: Seq<Rect> = Seq::empty();
    let ghost mut coins: Seq<bool> = Seq::empty();
    let ghost mut placed: Seq<Seq<(i32, i32, bool)>> = Seq::empty();
    let mut attempt: i32 = 0;
    proof {
        lemma_carve_full_size(solid_rock(MAP_WIDTH as int, MAP_HEIGHT as int), |px: int, py: int| false);
        assert(full_size(solid_rock(MAP_WIDTH as int, MAP_HEIGHT as int)));
        assert(rooms@ =~= kept(candidates));
    }
    while attempt < MAX_ROOMS
        invariant
            0 <= attempt <= MAX_ROOMS,
            candidates.len() == attempt,
            forall|i: int| 0 <= i < candidates.len() ==> #[trigger] room_fits(candidates[i]),
            rooms@ == kept(candidates),
            rooms@.len() <= attempt,
            attempt > 0 ==> rooms@.len() >= 1,
            old(objects)@.len() > PLAYER,
            full_size(grid(&map)),
            generated_from(candidates, coins, placed, old(objects)@, objects@, grid(&map)),
        decreases MAX_ROOMS - attempt,
    {
        let w = random_in_range(ROOM_MIN_SIZE, ROOM_MAX_SIZE + 1);
        let h = random_in_range(ROOM_MIN_SIZE, ROOM_MAX_SIZE + 1);
        let x = random_in_range(0, MAP_WIDTH - w);
        let y = random_in_range(0, MAP_HEIGHT - h);
        let new_room = Rect::new(x, y, w, h);
        assert(room_fits(new_room));
        let ghost candidates_before = candidates;
        proof {
            lemma_kept_step(candidates, new_room);
            candidates = candidates.push(new_room);
            assert forall|i: int| 0 <= i < candidates.len() implies #[trigger] room_fits(candidates[i]) by {
                if i < candidates_before.len() {
                    assert(candidates[i] == candidates_before[i]);
                }
            }
        }
        if !intersects_any(&rooms, &new_room) {
            let ghost g_before = grid(&map);
            let ghost objs_before = objects@;
            let ghost rooms_before = rooms@;
            let placements = draw_placements(new_room);
            let horizontal_first = if rooms.len() == 0 {
                false
            } else {
                coin_flip()
            };
            let was_kept = try_room(new_room, &placements, horizontal_first, &mut rooms, &mut map, objects);
            assert(was_kept);
            proof {
                lemma_dungeon_step(rooms_before, coins, new_room, horizontal_first);
                lemma_total_step(placed, placements@);
                let placed_before = placed;
                coins = coins.push(horizontal_first);
                placed = placed.push(placements@);
                let before = old(objects)@;
                let after = objects@;
                assert(after.subrange(0, objs_before.len() as int)[PLAYER as int] == after[PLAYER as int]);
                assert(rooms_apart(rooms@)) by {
                    assert forall|i: int, j: int|
                        0 <= i < j < rooms@.len() implies !rects_intersect(#[trigger] rooms@[j], #[trigger] rooms@[i]) by {
                        assert(rooms@[i] == rooms_before[i]);
                        if j < rooms_before.len() {
                            assert(rooms@[j] == rooms_before[j]);
                        }
                    }
                    assert forall|i: int| 0 <= i < rooms@.len() implies #[trigger] room_fits(rooms@[i]) by {
                        if i < rooms_before.len() {
                            assert(rooms@[i] == rooms_before[i]);
                        }
                    }
                }
                assert forall|i: int| 0 <= i < before.len() && i != PLAYER implies after[i] == before[i] by {
                    assert(after[i] == after.subrange(0, objs_before.len() as int)[i]);
                }
                assert forall|i: int|
                    before.len() <= i < after.len() implies exists|j: int|
                        0 <= j < rooms@.len() && spawned_in(#[trigger] after[i], #[trigger] rooms@[j]) by {
                    if i < objs_before.len() {
                        let j = choose|j: int| 0 <= j < rooms_before.len() && spawned_in(objs_before[i], rooms_before[j]);
                        assert(after[i] == after.subrange(0, objs_before.len() as int)[i]);
                        assert(rooms@[j] == rooms_before[j]);
                    } else {
                        let k = i - objs_before.len();
                        assert(spawned_as(after[objs_before.len() + k], placements@[k]));
                        assert(room_interior(new_room)(placements@[k].0 as int, placements@[k].1 as int));
                        assert(spawned_in(after[i], rooms@[rooms_before.len() as int]));
                    }
                }
                assert forall|j: int| 0 <= j < rooms@.len() implies placements_in(#[trigger] placed[j], rooms@[j]) by {
                    if j < rooms_before.len() {
                        assert(placed[j] == placed_before[j]);
                        assert(rooms@[j] == rooms_before[j]);
                    }
                }
                assert forall|j: int, k: int|
                    0 <= j < placed.len() && 0 <= k < placed[j].len() implies spawned_as(
                        after[before.len() + total(placed.take(j)) + k],
                        #[trigger] placed[j][k],
                    ) by {
                    if j < placed_before.len() {
                        assert(placed.take(j) =~= placed_before.take(j));
                        assert(placed[j] == placed_before[j]);
                        lemma_total_prefix(placed_before, j);
                        let idx = before.len() + total(placed_before.take(j)) + k;
                        assert(after[idx] == after.subrange(0, objs_before.len() as int)[idx]);
                        assert(spawned_as(objs_before[idx], placed_before[j][k]));
                    } else {
                        assert(placed.take(j) =~= placed_before);
                        assert(spawned_as(after[objs_before.len() + k], placements@[k]));
                    }
                }
            }
        } else {
            assert(touches_any(kept(candidates_before), new_room));
        }
        attempt = attempt + 1;
    }
    proof {
        assert(generated_from(candidates, coins, placed, old(objects)@, objects@, grid(&map)));
    }
    map
}

} // verus!
