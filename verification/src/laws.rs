//! Properties that hold of the library as a whole, stated over the spec
//! functions that the executable functions' contracts use.

use vstd::prelude::*;
use crate::geometry::{Rect, rects_intersect, center_of};
use crate::tile::{Tile, carve, floor_tile, in_grid};
use crate::object::{Object, PLAYER, moved_to};
use crate::dungeon::{
    dungeon, corridor, corridor_cells, on_map, full_size, h_tunnel, room_fits, room_interior, generated, spawned_in,
    solid_rock, MAP_WIDTH, MAP_HEIGHT, v_tunnel, kept, touches_any,
};
use crate::movement::{moved_by, blocked_at, stands_at, player_stepped, basic_monster_turn, MonsterTurn};
use crate::render::{look_at, revealed, shade, background};
use crate::input::{KeyCode, arrow_dx, arrow_dy, is_arrow};
use crate::movement::first_at;

verus! {

/// After `set_pos(x, y)`, `pos()` gives back `(x, y)`.
pub proof fn law_pos_after_set_pos(o: Object, x: i32, y: i32)
    ensures
        moved_to(o, x, y).x == x,
        moved_to(o, x, y).y == y,
{
}

/// Whether two rectangles intersect does not depend on which is asked about the other.
pub proof fn law_intersection_symmetric(a: Rect, b: Rect)
    ensures
        rects_intersect(a, b) == rects_intersect(b, a),
{
}

/// A rectangle whose corners are in order intersects itself.
pub proof fn law_rect_intersects_itself(r: Rect)
    requires
        r.x1 <= r.x2,
        r.y1 <= r.y2,
    ensures
        rects_intersect(r, r),
{
}

/// The center of a rectangle whose corners are in order lies within it.
pub proof fn law_center_inside(r: Rect)
    requires
        r.x1 <= r.x2,
        r.y1 <= r.y2,
    ensures
        r.x1 <= center_of(r).0 <= r.x2,
        r.y1 <= center_of(r).1 <= r.y2,
{
}

/// Carving keeps floor as floor, and keeps the cell on the grid.
proof fn lemma_floor_survives_carve(g: Seq<Seq<Tile>>, region: spec_fn(int, int) -> bool, x: int, y: int)
    requires
        in_grid(g, x, y),
        g[x][y] == floor_tile() || region(x, y),
    ensures
        in_grid(carve(g, region), x, y),
        carve(g, region)[x][y] == floor_tile(),
{
    crate::tile::lemma_carve_shape(g, region);
}

/// Digging corridors keeps floor as floor, and keeps the cell on the grid.
proof fn lemma_floor_survives_corridor(
    g: Seq<Seq<Tile>>,
    from: (int, int),
    to: (int, int),
    horizontal_first: bool,
    x: int,
    y: int,
)
    requires
        in_grid(g, x, y),
        g[x][y] == floor_tile(),
    ensures
        in_grid(corridor(g, from, to, horizontal_first), x, y),
        corridor(g, from, to, horizontal_first)[x][y] == floor_tile(),
{
    if horizontal_first {
        let h = crate::dungeon::h_tunnel(from.0, to.0, from.1);
        lemma_floor_survives_carve(g, h, x, y);
        lemma_floor_survives_carve(carve(g, h), crate::dungeon::v_tunnel(from.1, to.1, to.0), x, y);
    } else {
        let v = crate::dungeon::v_tunnel(from.1, to.1, from.0);
        lemma_floor_survives_carve(g, v, x, y);
        lemma_floor_survives_carve(carve(g, v), crate::dungeon::h_tunnel(from.0, to.0, to.1), x, y);
    }
}

/// Every generated map has `MAP_WIDTH` columns of `MAP_HEIGHT` tiles.
pub proof fn law_dungeon_full_size(rooms: Seq<Rect>, coins: Seq<bool>)
    ensures
        full_size(dungeon(rooms, coins)),
    decreases rooms.len(),
{
    if rooms.len() == 0 {
        assert(full_size(solid_rock(MAP_WIDTH as int, MAP_HEIGHT as int)));
    } else {
        let earlier = rooms.drop_last();
        law_dungeon_full_size(earlier, coins.drop_last());
        let base = dungeon(earlier, coins.drop_last());
        let carved = carve(base, room_interior(rooms.last()));
        crate::tile::lemma_carve_shape(base, room_interior(rooms.last()));
        if earlier.len() > 0 {
            let from = center_of(earlier.last());
            let to = center_of(rooms.last());
            let c = coins.last();
            if c {
                let h = crate::dungeon::h_tunnel(from.0, to.0, from.1);
                crate::tile::lemma_carve_shape(carved, h);
                crate::tile::lemma_carve_shape(carve(carved, h), crate::dungeon::v_tunnel(from.1, to.1, to.0));
            } else {
                let v = crate::dungeon::v_tunnel(from.1, to.1, from.0);
                crate::tile::lemma_carve_shape(carved, v);
                crate::tile::lemma_carve_shape(carve(carved, v), crate::dungeon::h_tunnel(from.0, to.0, to.1));
            }
        }
    }
}

/// In a generated map, the floor of every room kept is floor: later rooms
/// and corridors never wall it up again.
pub proof fn law_rooms_are_floor(rooms: Seq<Rect>, coins: Seq<bool>, i: int, x: int, y: int)
    requires
        forall|k: int| 0 <= k < rooms.len() ==> #[trigger] room_fits(rooms[k]),
        0 <= i < rooms.len(),
        room_interior(rooms[i])(x, y),
    ensures
        dungeon(rooms, coins)[x][y] == floor_tile(),
    decreases rooms.len(),
{
    let earlier = rooms.drop_last();
    let base = dungeon(earlier, coins.drop_last());
    law_dungeon_full_size(earlier, coins.drop_last());
    assert(room_fits(rooms[i]));
    assert(in_grid(base, x, y));
    if i < rooms.len() - 1 {
        assert(earlier[i] == rooms[i]);
        assert forall|k: int| 0 <= k < earlier.len() implies #[trigger] room_fits(earlier[k]) by {
            assert(earlier[k] == rooms[k]);
        }
        law_rooms_are_floor(earlier, coins.drop_last(), i, x, y);
    }
    lemma_floor_survives_carve(base, room_interior(rooms.last()), x, y);
    let carved = carve(base, room_interior(rooms.last()));
    if earlier.len() > 0 {
        lemma_floor_survives_corridor(
            carved,
            center_of(earlier.last()),
            center_of(rooms.last()),
            coins.last(),
            x,
            y,
        );
    }
}

/// The cells of a corridor are floor once it is dug.
proof fn lemma_corridor_is_floor(
    g: Seq<Seq<Tile>>,
    from: (int, int),
    to: (int, int),
    horizontal_first: bool,
    x: int,
    y: int,
)
    requires
        in_grid(g, x, y),
        corridor_cells(from, to, horizontal_first)(x, y),
    ensures
        corridor(g, from, to, horizontal_first)[x][y] == floor_tile(),
{
    if horizontal_first {
        let h = crate::dungeon::h_tunnel(from.0, to.0, from.1);
        let v = crate::dungeon::v_tunnel(from.1, to.1, to.0);
        crate::tile::lemma_carve_shape(g, h);
        crate::tile::lemma_carve_shape(carve(g, h), v);
    } else {
        let v = crate::dungeon::v_tunnel(from.1, to.1, from.0);
        let h = crate::dungeon::h_tunnel(from.0, to.0, to.1);
        crate::tile::lemma_carve_shape(g, v);
        crate::tile::lemma_carve_shape(carve(g, v), h);
    }
}

/// In a generated map, every corridor dug between the centers of two rooms
/// kept one after the other is floor: later rooms and corridors never wall
/// it up again.
pub proof fn law_corridors_are_floor(rooms: Seq<Rect>, coins: Seq<bool>, i: int, x: int, y: int)
    requires
        forall|k: int| 0 <= k < rooms.len() ==> #[trigger] room_fits(rooms[k]),
        coins.len() == rooms.len(),
        1 <= i < rooms.len(),
        corridor_cells(center_of(rooms[i - 1]), center_of(rooms[i]), coins[i])(x, y),
    ensures
        dungeon(rooms, coins)[x][y] == floor_tile(),
    decreases rooms.len(),
{
    let earlier = rooms.drop_last();
    let base = dungeon(earlier, coins.drop_last());
    law_dungeon_full_size(earlier, coins.drop_last());
    assert(room_fits(rooms[i - 1]));
    assert(room_fits(rooms[i]));
    assert(on_map(center_of(rooms[i - 1])) && on_map(center_of(rooms[i])));
    assert(in_grid(base, x, y));
    lemma_carve_full(base, room_interior(rooms.last()), x, y);
    let carved = carve(base, room_interior(rooms.last()));
    if i < rooms.len() - 1 {
        assert(earlier[i] == rooms[i]);
        assert(earlier[i - 1] == rooms[i - 1]);
        assert(coins.drop_last()[i] == coins[i]);
        assert forall|k: int| 0 <= k < earlier.len() implies #[trigger] room_fits(earlier[k]) by {
            assert(earlier[k] == rooms[k]);
        }
        law_corridors_are_floor(earlier, coins.drop_last(), i, x, y);
        lemma_floor_survives_carve(base, room_interior(rooms.last()), x, y);
        lemma_floor_survives_corridor(
            carved,
            center_of(earlier.last()),
            center_of(rooms.last()),
            coins.last(),
            x,
            y,
        );
    } else {
        assert(earlier.last() == rooms[i - 1]);
        lemma_corridor_is_floor(carved, center_of(earlier.last()), center_of(rooms.last()), coins.last(), x, y);
    }
}

/// When the new room's center is not above the previous one's, the
/// corridor between them is an unbroken L: every cell along the straight
/// run from `from` to the corner, and from the corner to `to`, is dug (the
/// corner is `(to.0, from.1)` when digging horizontally first, `(from.0,
/// to.1)` otherwise).
pub proof fn law_corridor_joins_centers(from: (int, int), to: (int, int), horizontal_first: bool, x: int, y: int)
    requires
        from.1 <= to.1,
        horizontal_first ==> ((y == from.1 && (from.0 <= x <= to.0 || to.0 <= x <= from.0)) || (x == to.0
            && from.1 <= y <= to.1)),
        !horizontal_first ==> ((x == from.0 && from.1 <= y <= to.1) || (y == to.1 && (from.0 <= x
            <= to.0 || to.0 <= x <= from.0))),
    ensures
        corridor_cells(from, to, horizontal_first)(x, y),
{
}

/// A cell of a full-size grid stays on the grid through carving.
proof fn lemma_carve_full(g: Seq<Seq<Tile>>, region: spec_fn(int, int) -> bool, x: int, y: int)
    requires
        in_grid(g, x, y),
    ensures
        in_grid(carve(g, region), x, y),
{
    crate::tile::lemma_carve_shape(g, region);
}

/// `make_map` puts the player on the floor of the first room and every
/// monster it adds on floor.
pub proof fn law_generated_objects_stand_on_floor(
    rooms: Seq<Rect>,
    coins: Seq<bool>,
    before: Seq<Object>,
    after: Seq<Object>,
    g: Seq<Seq<Tile>>,
)
    requires
        PLAYER < before.len(),
        generated(rooms, coins, before, after, g),
    ensures
        rooms.len() > 0 ==> g[after[PLAYER as int].x as int][after[PLAYER as int].y as int]
            == floor_tile(),
        forall|i: int|
            before.len() <= i < after.len() ==> g[after[i].x as int][after[i].y as int]
                == floor_tile(),
{
    if rooms.len() > 0 {
        let r = rooms[0];
        assert(room_fits(r));
        assert(room_interior(r)(center_of(r).0, center_of(r).1));
        law_rooms_are_floor(rooms, coins, 0, center_of(r).0, center_of(r).1);
    }
    assert forall|i: int| before.len() <= i < after.len() implies g[after[i].x as int][after[i].y as int]
        == floor_tile() by {
        let j = choose|j: int| 0 <= j < rooms.len() && spawned_in(after[i], rooms[j]);
        law_rooms_are_floor(rooms, coins, j, after[i].x as int, after[i].y as int);
    }
}

/// A move changes only the object that moves, and never ends on a blocked
/// tile or on another blocking object: either nothing changes, or the
/// mover stands on a destination that was open.
pub proof fn law_moves_land_on_open_cells(g: Seq<Seq<Tile>>, objects: Seq<Object>, id: int, dx: int, dy: int)
    requires
        0 <= id < objects.len(),
        i32::MIN <= objects[id].x + dx <= i32::MAX,
        i32::MIN <= objects[id].y + dy <= i32::MAX,
    ensures
        ({
            let after = moved_by(g, objects, id, dx, dy);
            let (x, y) = (objects[id].x + dx, objects[id].y + dy);
            &&& after.len() == objects.len()
            &&& forall|j: int| 0 <= j < objects.len() && j != id ==> after[j] == objects[j]
            &&& after == objects || (stands_at(after[id], x, y) && !blocked_at(g, objects, x, y))
        }),
{
}

/// Looking at the map never forgets a tile: an explored tile stays
/// explored, and a tile looked at while in sight becomes explored.
pub proof fn law_exploration_is_kept(
    g: Seq<Seq<Tile>>,
    seen: Seq<Seq<bool>>,
    region: spec_fn(int, int) -> bool,
    x: int,
    y: int,
)
    requires
        in_grid(g, x, y),
    ensures
        g[x][y].explored ==> look_at(g, seen, region)[x][y].explored,
        region(x, y) && seen[x][y] ==> look_at(g, seen, region)[x][y].explored,
        look_at(g, seen, region)[x][y].blocked == g[x][y].blocked,
        look_at(g, seen, region)[x][y].block_sight == g[x][y].block_sight,
{
}

/// The order of a horizontal corridor's end points does not matter.
pub proof fn law_h_tunnel_ends_commute(g: Seq<Seq<Tile>>, x1: int, x2: int, y: int)
    ensures
        carve(g, h_tunnel(x1, x2, y)) == carve(g, h_tunnel(x2, x1, y)),
{
    assert(h_tunnel(x1, x2, y) =~= h_tunnel(x2, x1, y));
}

/// Every object stands on a cell of the map that is not blocked, and no
/// two blocking objects share a cell.
pub open spec fn orderly(g: Seq<Seq<Tile>>, objects: Seq<Object>) -> bool {
    &&& forall|i: int|
        0 <= i < objects.len() ==> in_grid(g, #[trigger] objects[i].x as int, objects[i].y as int)
            && !g[objects[i].x as int][objects[i].y as int].blocked
    &&& forall|i: int, j: int|
        0 <= i < objects.len() && 0 <= j < objects.len() && i != j && #[trigger] objects[i].blocks
            && #[trigger] objects[j].blocks ==> !(objects[i].x == objects[j].x && objects[i].y
            == objects[j].y)
}

/// A move keeps the map orderly: no object ends on a blocked tile, and no
/// blocking object ends on a cell that another blocking object holds.
pub proof fn law_move_keeps_order(g: Seq<Seq<Tile>>, objects: Seq<Object>, id: int, dx: int, dy: int)
    requires
        0 <= id < objects.len(),
        i32::MIN <= objects[id].x + dx <= i32::MAX,
        i32::MIN <= objects[id].y + dy <= i32::MAX,
        in_grid(g, objects[id].x + dx, objects[id].y + dy),
        orderly(g, objects),
    ensures
        orderly(g, moved_by(g, objects, id, dx, dy)),
{
    let after = moved_by(g, objects, id, dx, dy);
    let (x, y) = (objects[id].x + dx, objects[id].y + dy);
    if !blocked_at(g, objects, x, y) {
        assert forall|i: int| 0 <= i < after.len() implies in_grid(g, #[trigger] after[i].x as int, after[i].y as int)
            && !g[after[i].x as int][after[i].y as int].blocked by {
            if i != id {
                assert(after[i] == objects[i]);
            }
        }
        assert forall|i: int, j: int|
            0 <= i < after.len() && 0 <= j < after.len() && i != j && #[trigger] after[i].blocks
                && #[trigger] after[j].blocks implies !(after[i].x == after[j].x && after[i].y
                == after[j].y) by {
            if i == id {
                assert(after[j] == objects[j]);
                assert(!(objects[j].blocks && stands_at(objects[j], x, y)));
            } else if j == id {
                assert(after[i] == objects[i]);
                assert(!(objects[i].blocks && stands_at(objects[i], x, y)));
            } else {
                assert(after[i] == objects[i]);
                assert(after[j] == objects[j]);
            }
        }
    }
}

/// No two objects share a cell, and the player stands on a tile that is not blocked.
pub open spec fn apart(g: Seq<Seq<Tile>>, objects: Seq<Object>) -> bool {
    &&& in_grid(g, objects[PLAYER as int].x as int, objects[PLAYER as int].y as int)
    &&& !g[objects[PLAYER as int].x as int][objects[PLAYER as int].y as int].blocked
    &&& forall|i: int, j: int|
        0 <= i < objects.len() && 0 <= j < objects.len() && i != j ==> !(#[trigger] objects[i].x
            == #[trigger] objects[j].x && objects[i].y == objects[j].y)
}

/// A step of the player, or its attack, keeps the objects apart and the
/// player off blocked tiles: the player never walks into a wall or onto
/// another object.
pub proof fn law_player_step_keeps_apart(
    g: Seq<Seq<Tile>>,
    before: Seq<Object>,
    after: Seq<Object>,
    dx: int,
    dy: int,
    target: Option<usize>,
)
    requires
        PLAYER < before.len(),
        apart(g, before),
        in_grid(g, before[PLAYER as int].x + dx, before[PLAYER as int].y + dy),
        i32::MIN <= before[PLAYER as int].x + dx <= i32::MAX,
        i32::MIN <= before[PLAYER as int].y + dy <= i32::MAX,
        player_stepped(g, before, after, dx, dy, target),
    ensures
        apart(g, after),
{
    let p = before[PLAYER as int];
    let (x, y) = (p.x + dx, p.y + dy);
    if target is None && !blocked_at(g, before, x, y) {
        let pid = PLAYER as int;
        assert forall|i: int, j: int|
            0 <= i < after.len() && 0 <= j < after.len() && i != j implies !(#[trigger] after[i].x
                == #[trigger] after[j].x && after[i].y == after[j].y) by {
            if i == pid {
                assert(after[j] == before[j]);
                assert(!stands_at(before[j], x, y));
            } else if j == pid {
                assert(after[i] == before[i]);
                assert(!stands_at(before[i], x, y));
            } else {
                assert(after[i] == before[i]);
                assert(after[j] == before[j]);
            }
        }
    }
}

/// The cell `(x, y)` lies in the rectangle, borders included.
pub open spec fn covers(r: Rect, x: int, y: int) -> bool {
    r.x1 <= x <= r.x2 && r.y1 <= y <= r.y2
}

/// Two rectangles whose corners are in order intersect exactly when some
/// cell lies in both, borders included.
pub proof fn law_intersect_iff_shared_cell(a: Rect, b: Rect)
    requires
        a.x1 <= a.x2,
        a.y1 <= a.y2,
        b.x1 <= b.x2,
        b.y1 <= b.y2,
    ensures
        rects_intersect(a, b) <==> exists|x: int, y: int| covers(a, x, y) && covers(b, x, y),
{
    if rects_intersect(a, b) {
        let x = if a.x1 >= b.x1 { a.x1 as int } else { b.x1 as int };
        let y = if a.y1 >= b.y1 { a.y1 as int } else { b.y1 as int };
        assert(covers(a, x, y) && covers(b, x, y));
    }
}

/// A monster in view chases the player exactly when they are not
/// neighbours: when the player is 2 or more cells away along the row or
/// along the column (the straight-line distance is then 2 or more). When
/// they are neighbours or share a cell, it attacks a player with hit points
/// left and waits otherwise. Out of view it always waits.
pub proof fn law_monster_chases_unless_adjacent(monster: Object, player: Object, in_view: bool)
    ensures
        !in_view ==> basic_monster_turn(monster, player, in_view) == MonsterTurn::Wait,
        in_view ==> ((basic_monster_turn(monster, player, in_view) is Chase) <==> (player.x - monster.x
            >= 2 || monster.x - player.x >= 2 || player.y - monster.y >= 2 || monster.y - player.y >= 2)),
        in_view && (basic_monster_turn(monster, player, in_view) is Chase) ==> basic_monster_turn(
            monster,
            player,
            in_view,
        ) == (MonsterTurn::Chase { x: player.x, y: player.y }),
        in_view && !(basic_monster_turn(monster, player, in_view) is Chase) ==> (basic_monster_turn(
            monster,
            player,
            in_view,
        ) == MonsterTurn::Attack <==> (player.fighter matches Some(f) && f.hp > 0)),
{
    let dx = player.x - monster.x;
    let dy = player.y - monster.y;
    assert((dx * dx + dy * dy >= 4) <==> (dx >= 2 || -dx >= 2 || dy >= 2 || -dy >= 2)) by (nonlinear_arith);
}

/// Looking explores nothing new but what is in sight within the region
/// looked at: a tile is explored afterwards exactly when it was explored
/// before, or it was looked at while in sight.
pub proof fn law_exploration_only_by_sight(
    g: Seq<Seq<Tile>>,
    seen: Seq<Seq<bool>>,
    region: spec_fn(int, int) -> bool,
    x: int,
    y: int,
)
    requires
        in_grid(g, x, y),
    ensures
        look_at(g, seen, region)[x][y].explored <==> (g[x][y].explored || (region(x, y) && seen[x][y])),
{
}

/// After a look, a tile is drawn exactly when it had been explored or is
/// in sight now; a tile drawn gets a light color when in sight and a dark one
/// otherwise, a wall color when it blocks sight and a ground color otherwise,
/// and these four colors are all different.
pub proof fn law_drawn_only_once_explored(t: Tile, seen: bool)
    ensures
        (shade(revealed(t, seen), seen) is None) <==> (!t.explored && !seen),
        shade(revealed(t, seen), seen) is Some ==> shade(revealed(t, seen), seen) == Some(
            background(seen, t.block_sight),
        ),
        background(true, true) != background(false, true),
        background(true, true) != background(true, false),
        background(true, true) != background(false, false),
        background(false, true) != background(true, false),
        background(false, true) != background(false, false),
        background(true, false) != background(false, false),
{
}

/// A move whose destination is open always happens, whatever object makes
/// it and whatever the step: the mover then stands on the destination and
/// nothing else changes. A move whose destination is blocked changes nothing.
pub proof fn law_open_moves_happen(g: Seq<Seq<Tile>>, objects: Seq<Object>, id: int, dx: int, dy: int)
    requires
        0 <= id < objects.len(),
        i32::MIN <= objects[id].x + dx <= i32::MAX,
        i32::MIN <= objects[id].y + dy <= i32::MAX,
    ensures
        ({
            let after = moved_by(g, objects, id, dx, dy);
            let (x, y) = (objects[id].x + dx, objects[id].y + dy);
            &&& !blocked_at(g, objects, x, y) ==> stands_at(after[id], x, y) && after[id].name
                == objects[id].name && after[id].blocks == objects[id].blocks && after[id].alive
                == objects[id].alive && after[id].fighter == objects[id].fighter && after[id].ai
                == objects[id].ai && after[id].char == objects[id].char && after[id].color
                == objects[id].color
            &&& blocked_at(g, objects, x, y) ==> after == objects
            &&& after.len() == objects.len()
            &&& forall|j: int| 0 <= j < objects.len() && j != id ==> after[j] == objects[j]
        }),
{
}

/// The center of a rectangle is the midpoint of its corners, rounded
/// towards zero: twice the center is the corners' sum, or one less when
/// that sum is odd and positive, or one more when it is odd and negative.
pub proof fn law_center_is_midpoint(r: Rect)
    ensures
        r.x1 + r.x2 >= 0 ==> 0 <= (r.x1 + r.x2) - 2 * center_of(r).0 <= 1,
        r.x1 + r.x2 < 0 ==> -1 <= (r.x1 + r.x2) - 2 * center_of(r).0 <= 0,
        r.y1 + r.y2 >= 0 ==> 0 <= (r.y1 + r.y2) - 2 * center_of(r).1 <= 1,
        r.y1 + r.y2 < 0 ==> -1 <= (r.y1 + r.y2) - 2 * center_of(r).1 <= 0,
{
}

/// Carving a room turns into floor exactly the cells strictly inside it and
/// leaves every other cell as it was; the map keeps its shape.
pub proof fn law_room_carves_its_inside(g: Seq<Seq<Tile>>, r: Rect, x: int, y: int)
    requires
        in_grid(g, x, y),
    ensures
        in_grid(carve(g, room_interior(r)), x, y),
        carve(g, room_interior(r))[x][y] == (if r.x1 < x < r.x2 && r.y1 < y < r.y2 {
            floor_tile()
        } else {
            g[x][y]
        }),
{
    crate::tile::lemma_carve_shape(g, room_interior(r));
}

/// A horizontal corridor turns into floor exactly the cells of row `row`
/// between the two end columns, both included, and nothing else.
pub proof fn law_h_tunnel_cells(g: Seq<Seq<Tile>>, x1: int, x2: int, row: int, x: int, y: int)
    requires
        in_grid(g, x, y),
    ensures
        carve(g, h_tunnel(x1, x2, row))[x][y] == (if y == row && ((x1 <= x <= x2) || (x2 <= x <= x1)) {
            floor_tile()
        } else {
            g[x][y]
        }),
{
    crate::tile::lemma_carve_shape(g, h_tunnel(x1, x2, row));
}

/// A vertical corridor turns into floor exactly the cells of column `col`
/// from row `y1` to row `y2` when `y1 <= y2`, and the single cell `(col, y1)`
/// otherwise; nothing else changes.
pub proof fn law_v_tunnel_cells(g: Seq<Seq<Tile>>, y1: int, y2: int, col: int, x: int, y: int)
    requires
        in_grid(g, x, y),
    ensures
        carve(g, v_tunnel(y1, y2, col))[x][y] == (if x == col && ((y1 <= y <= y2) || y == y1) {
            floor_tile()
        } else {
            g[x][y]
        }),
{
    crate::tile::lemma_carve_shape(g, v_tunnel(y1, y2, col));
}

/// A cell is closed to movement exactly when its tile is blocked or a
/// blocking object stands on it; objects that do not block never close it.
pub proof fn law_blocked_cells(g: Seq<Seq<Tile>>, objects: Seq<Object>, x: int, y: int)
    ensures
        g[x][y].blocked ==> blocked_at(g, objects, x, y),
        forall|i: int|
            0 <= i < objects.len() && objects[i].blocks && objects[i].x == x && objects[i].y == y
                ==> blocked_at(g, objects, x, y),
        !g[x][y].blocked && (forall|i: int|
            0 <= i < objects.len() && #[trigger] objects[i].x == x && objects[i].y == y ==> !objects[i].blocks)
            ==> !blocked_at(g, objects, x, y),
{
    assert forall|i: int|
        0 <= i < objects.len() && objects[i].blocks && objects[i].x == x && objects[i].y == y implies blocked_at(
        g,
        objects,
        x,
        y,
    ) by {
        assert(objects[i].blocks && stands_at(objects[i], x, y));
    }
}

/// The player attacks whenever something stands on the destination, and
/// then it attacks the object that comes first in the list; it only tries
/// to move when nothing stands there.
pub proof fn law_attack_targets_first_object(objects: Seq<Object>, x: int, y: int, found: Option<usize>)
    requires
        first_at(objects, x, y, found),
    ensures
        (found is Some) <==> exists|i: int| 0 <= i < objects.len() && objects[i].x == x && #[trigger] objects[i].y == y,
        found matches Some(i) ==> objects[i as int].x == x && objects[i as int].y == y && forall|j: int|
            0 <= j < i ==> !(objects[j].x == x && #[trigger] objects[j].y == y),
{
    if found is Some {
        let i = found->0 as int;
        assert(objects[i].x == x && objects[i].y == y);
    } else {
        assert forall|i: int| 0 <= i < objects.len() implies !(objects[i].x == x && #[trigger] objects[i].y == y) by {
            assert(!stands_at(objects[i], x, y));
        }
    }
}

/// Each arrow key is a step of one cell in its direction: Up decreases the
/// row, Down increases it, Left decreases the column, Right increases it;
/// other keys are no steps.
pub proof fn law_arrow_directions(code: KeyCode)
    ensures
        code == KeyCode::Up ==> is_arrow(code) && arrow_dx(code) == 0 && arrow_dy(code) == -1,
        code == KeyCode::Down ==> is_arrow(code) && arrow_dx(code) == 0 && arrow_dy(code) == 1,
        code == KeyCode::Left ==> is_arrow(code) && arrow_dx(code) == -1 && arrow_dy(code) == 0,
        code == KeyCode::Right ==> is_arrow(code) && arrow_dx(code) == 1 && arrow_dy(code) == 0,
        code == KeyCode::Enter || code == KeyCode::Escape || code == KeyCode::Other ==> !is_arrow(code),
{
}

/// The generator's choice of rooms is greedy and complete: every room kept
/// is one of the rooms drawn, in the order drawn; no two rooms kept touch;
/// and every room drawn is either kept or touches a room kept before it.
pub proof fn law_kept_rooms_are_greedy(candidates: Seq<Rect>)
    ensures
        kept(candidates).len() <= candidates.len(),
        forall|j: int| 0 <= j < kept(candidates).len() ==> candidates.contains(#[trigger] kept(candidates)[j]),
        forall|i: int, j: int|
            0 <= i < j < kept(candidates).len() ==> !rects_intersect(
                #[trigger] kept(candidates)[j],
                #[trigger] kept(candidates)[i],
            ),
        forall|i: int|
            0 <= i < candidates.len() ==> kept(candidates).contains(#[trigger] candidates[i]) || exists|j: int|
                0 <= j < kept(candidates).len() && rects_intersect(candidates[i], #[trigger] kept(candidates)[j]),
    decreases candidates.len(),
{
    if candidates.len() > 0 {
        let earlier = candidates.drop_last();
        let c = candidates.last();
        law_kept_rooms_are_greedy(earlier);
        let before = kept(earlier);
        let after = kept(candidates);
        assert forall|j: int| 0 <= j < after.len() implies candidates.contains(#[trigger] after[j]) by {
            if j < before.len() {
                assert(after[j] == before[j]);
                let k = choose|k: int| 0 <= k < earlier.len() && earlier[k] == before[j];
                assert(candidates[k] == earlier[k]);
            } else {
                assert(candidates[candidates.len() - 1] == c);
            }
        }
        assert forall|i: int, j: int| 0 <= i < j < after.len() implies !rects_intersect(
            #[trigger] after[j],
            #[trigger] after[i],
        ) by {
            assert(after[i] == before[i]);
            if j < before.len() {
                assert(after[j] == before[j]);
            } else {
                assert(!rects_intersect(c, before[i]));
            }
        }
        assert forall|i: int| 0 <= i < candidates.len() implies after.contains(#[trigger] candidates[i]) || exists|j: int|
            0 <= j < after.len() && rects_intersect(candidates[i], #[trigger] after[j]) by {
            if i < earlier.len() {
                assert(candidates[i] == earlier[i]);
                if before.contains(earlier[i]) {
                    let k = choose|k: int| 0 <= k < before.len() && before[k] == earlier[i];
                    assert(after[k] == before[k]);
                } else {
                    let k = choose|k: int| 0 <= k < before.len() && rects_intersect(earlier[i], before[k]);
                    assert(after[k] == before[k]);
                }
            } else {
                if touches_any(before, c) {
                    let k = choose|k: int| 0 <= k < before.len() && rects_intersect(c, before[k]);
                    assert(after[k] == before[k]);
                } else {
                    assert(after[after.len() - 1] == c);
                }
            }
        }
    }
}

} // verus!
