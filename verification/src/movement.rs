use vstd::prelude::*;
use crate::tile::{Tile, DungeonMap, Game, grid, in_grid};
use crate::object::{Object, PLAYER, moved_to};

verus! {

/// Object `o` stands at `(x, y)`.
pub open spec fn stands_at(o: Object, x: int, y: int) -> bool {
    o.x == x && o.y == y
}

/// Nothing can enter `(x, y)`: its tile is blocked, or a blocking object stands there.
pub open spec fn blocked_at(g: Seq<Seq<Tile>>, objects: Seq<Object>, x: int, y: int) -> bool {
    ||| g[x][y].blocked
    ||| exists|i: int| 0 <= i < objects.len() && #[trigger] objects[i].blocks && stands_at(objects[i], x, y)
}

/// `found` is the index of the first object that stands at `(x, y)`, or
/// `None` when no object stands there.
pub open spec fn first_at(objects: Seq<Object>, x: int, y: int, found: Option<usize>) -> bool {
    match found {
        Some(i) => {
            &&& i < objects.len()
            &&& stands_at(objects[i as int], x, y)
            &&& forall|j: int| 0 <= j < i ==> !stands_at(#[trigger] objects[j], x, y)
        },
        None => forall|j: int| 0 <= j < objects.len() ==> !stands_at(#[trigger] objects[j], x, y),
    }
}

/// The objects after object `id` tried to move by `(dx, dy)`: it stands on
/// the destination if that was not blocked, and everything is as before otherwise.
pub open spec fn moved_by(g: Seq<Seq<Tile>>, objects: Seq<Object>, id: int, dx: int, dy: int) -> Seq<Object> {
    let o = objects[id];
    if blocked_at(g, objects, o.x + dx, o.y + dy) {
        objects
    } else {
        objects.update(id, moved_to(o, (o.x + dx) as i32, (o.y + dy) as i32))
    }
}

/// Whether `(x, y)` is closed to movement: a blocked tile, or a blocking object on it.
pub fn is_blocked(x: i32, y: i32, map: &DungeonMap, objects: &[Object]) -> (b: bool)
    requires
        in_grid(grid(map), x as int, y as int),
    ensures
        b == blocked_at(grid(map), objects@, x as int, y as int),
{
    proof { crate::tile::lemma_grid_columns(map); }
    if map[x as usize][y as usize].blocked {
        return true;
    }
    let mut i: usize = 0;
    while i < objects.len()
        invariant
            i <= objects@.len(),
            !grid(map)[x as int][y as int].blocked,
            forall|k: int| 0 <= k < i ==> !(#[trigger] objects@[k].blocks && stands_at(objects@[k], x as int, y as int)),
        decreases objects@.len() - i,
    {
        if objects[i].blocks && objects[i].x == x && objects[i].y == y {
            return true;
        }
        i = i + 1;
    }
    false
}

/// Move object `id` by `(dx, dy)` unless the destination is blocked; when
/// it is, nothing changes.
pub fn move_by(id: usize, dx: i32, dy: i32, map: &DungeonMap, objects: &mut Vec<Object>)
    requires
        id < old(objects)@.len(),
        i32::MIN <= old(objects)@[id as int].x + dx <= i32::MAX,
        i32::MIN <= old(objects)@[id as int].y + dy <= i32::MAX,
        in_grid(grid(map), old(objects)@[id as int].x + dx, old(objects)@[id as int].y + dy),
    ensures
        final(objects)@ == moved_by(grid(map), old(objects)@, id as int, dx as int, dy as int),
{
    let (x, y) = objects[id].pos();
    if !is_blocked(x + dx, y + dy, map, objects.as_slice()) {
        objects[id].set_pos(x + dx, y + dy);
    }
}

} // verus!

verus! {

/// The index of the first object standing at `(x, y)`, if any.
pub fn object_at(objects: &[Object], x: i32, y: i32) -> (found: Option<usize>)
    ensures
        first_at(objects@, x as int, y as int, found),
{
    let mut i: usize = 0;
    while i < objects.len()
        invariant
            i <= objects@.len(),
            forall|j: int| 0 <= j < i ==> !stands_at(#[trigger] objects@[j], x as int, y as int),
        decreases objects@.len() - i,
    {
        if objects[i].x == x && objects[i].y == y {
            return Some(i);
        }
        i = i + 1;
    }
    None
}

/// The player, object `PLAYER`, can try to step by `(dx, dy)` without an
/// arithmetic overflow and, unless an object stands on the destination,
/// without leaving the map.
pub open spec fn step_allowed(g: Seq<Seq<Tile>>, objects: Seq<Object>, dx: int, dy: int) -> bool {
    let p = objects[PLAYER as int];
    &&& i32::MIN <= p.x + dx <= i32::MAX
    &&& i32::MIN <= p.y + dy <= i32::MAX
    &&& first_at(objects, p.x + dx, p.y + dy, None) ==> in_grid(g, p.x + dx, p.y + dy)
}

/// The outcome of the player's step by `(dx, dy)`: `target` is the first
/// object on the destination, if any; when there is one, nothing changes;
/// otherwise the player moves there unless it is blocked.
pub open spec fn player_stepped(
    g: Seq<Seq<Tile>>,
    before: Seq<Object>,
    after: Seq<Object>,
    dx: int,
    dy: int,
    target: Option<usize>,
) -> bool {
    let p = before[PLAYER as int];
    let (x, y) = (p.x + dx, p.y + dy);
    &&& first_at(before, x, y, target)
    &&& target is Some ==> after == before
    &&& target is None ==> after == moved_by(g, before, PLAYER as int, dx, dy)
}

/// Whether the player can try to step by `(dx, dy)`: see `step_allowed`.
pub fn can_try_step(dx: i32, dy: i32, game: &Game, objects: &Vec<Object>) -> (ok: bool)
    requires
        PLAYER < objects@.len(),
    ensures
        ok == step_allowed(grid(&game.map), objects@, dx as int, dy as int),
{
    let x = objects[PLAYER].x as i64 + dx as i64;
    let y = objects[PLAYER].y as i64 + dy as i64;
    if x < i32::MIN as i64 || x > i32::MAX as i64 || y < i32::MIN as i64 || y > i32::MAX as i64 {
        return false;
    }
    match object_at(objects.as_slice(), x as i32, y as i32) {
        Some(_) => true,
        None => {
            proof { crate::tile::lemma_grid_columns(&game.map); }
            0 <= x && (x as usize) < game.map.len() && 0 <= y && (y as usize) < game.map[x as usize].len()
        },
    }
}

/// The player tries to step by `(dx, dy)`. When an object stands on the
/// destination, the player attacks it instead of moving: its index is
/// returned and nothing changes. Otherwise the player moves there unless the
/// tile is blocked, and `None` is returned.
pub fn player_move_or_attack(dx: i32, dy: i32, game: &Game, objects: &mut Vec<Object>) -> (target: Option<usize>)
    requires
        PLAYER < old(objects)@.len(),
        step_allowed(grid(&game.map), old(objects)@, dx as int, dy as int),
    ensures
        player_stepped(grid(&game.map), old(objects)@, final(objects)@, dx as int, dy as int, target),
{
    let x = objects[PLAYER].x + dx;
    let y = objects[PLAYER].y + dy;
    let target_id = object_at(objects.as_slice(), x, y);
    match target_id {
        Some(target_id) => Some(target_id),
        None => {
            move_by(PLAYER, dx, dy, &game.map, objects);
            None
        },
    }
}

/// What a monster decides on its turn.
#[derive(Clone, Copy, Debug, PartialEq, Eq, Structural)]
pub enum MonsterTurn {
    /// Do nothing.
    Wait,
    /// Step towards the player, who stands at `(x, y)`.
    Chase { x: i32, y: i32 },
    /// Attack the player.
    Attack,
}

/// The square of the distance between two objects.
pub open spec fn distance_squared(a: Object, b: Object) -> int {
    (b.x - a.x) * (b.x - a.x) + (b.y - a.y) * (b.y - a.y)
}

/// The distance between two objects can be computed in `i32` arithmetic.
pub open spec fn distance_fits(a: Object, b: Object) -> bool {
    &&& i32::MIN <= b.x - a.x <= i32::MAX
    &&& i32::MIN <= b.y - a.y <= i32::MAX
    &&& (b.x - a.x) * (b.x - a.x) <= i32::MAX
    &&& (b.y - a.y) * (b.y - a.y) <= i32::MAX
    &&& distance_squared(a, b) <= i32::MAX
}

/// The decision of a basic monster: nothing while the player cannot see it;
/// chase the player while the distance between them is 2 or more (that is,
/// its square is 4 or more); otherwise attack, if the player is a fighter
/// with hit points left.
pub open spec fn basic_monster_turn(monster: Object, player: Object, in_view: bool) -> MonsterTurn {
    if !in_view {
        MonsterTurn::Wait
    } else if distance_squared(monster, player) >= 4 {
        MonsterTurn::Chase { x: player.x, y: player.y }
    } else if player.fighter matches Some(f) && f.hp > 0 {
        MonsterTurn::Attack
    } else {
        MonsterTurn::Wait
    }
}

/// The turn of monster `monster_id`, where `monster_in_fov` says whether it
/// stands in the player's field of view.
pub fn ai_take_turn(monster_id: usize, monster_in_fov: bool, objects: &Vec<Object>) -> (turn: MonsterTurn)
    requires
        monster_id < objects@.len(),
        PLAYER < objects@.len(),
        monster_in_fov ==> distance_fits(objects@[monster_id as int], objects@[PLAYER as int]),
    ensures
        turn == basic_monster_turn(objects@[monster_id as int], objects@[PLAYER as int], monster_in_fov),
{
    if !monster_in_fov {
        return MonsterTurn::Wait;
    }
    let dx = objects[PLAYER].x - objects[monster_id].x;
    let dy = objects[PLAYER].y - objects[monster_id].y;
    assert(0 <= dx * dx <= i32::MAX) by (nonlinear_arith)
        requires
            dx * dx == (objects@[PLAYER as int].x - objects@[monster_id as int].x) * (
            objects@[PLAYER as int].x - objects@[monster_id as int].x),
            (objects@[PLAYER as int].x - objects@[monster_id as int].x) * (objects@[PLAYER as int].x
                - objects@[monster_id as int].x) <= i32::MAX,
    ;
    assert(0 <= dy * dy <= i32::MAX) by (nonlinear_arith)
        requires
            dy * dy == (objects@[PLAYER as int].y - objects@[monster_id as int].y) * (
            objects@[PLAYER as int].y - objects@[monster_id as int].y),
            (objects@[PLAYER as int].y - objects@[monster_id as int].y) * (objects@[PLAYER as int].y
                - objects@[monster_id as int].y) <= i32::MAX,
    ;
    let distance_squared = dx * dx + dy * dy;
    if distance_squared >= 4 {
        let (player_x, player_y) = objects[PLAYER].pos();
        MonsterTurn::Chase { x: player_x, y: player_y }
    } else {
        match objects[PLAYER].fighter {
            Some(f) => if f.hp > 0 {
                MonsterTurn::Attack
            } else {
                MonsterTurn::Wait
            },
            None => MonsterTurn::Wait,
        }
    }
}

} // verus!
