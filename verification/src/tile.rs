use vstd::prelude::*;

verus! {

/// One cell of the dungeon map.
#[derive(Clone, Copy, Debug)]
pub struct Tile {
    pub blocked: bool,
    pub block_sight: bool,
    pub explored: bool,
}

impl Tile {
    /// The floor: passable, transparent, not yet seen.
    pub fn empty() -> (t: Self)
        ensures
            t == floor_tile(),
    {
        Tile { blocked: false, block_sight: false, explored: false }
    }

    /// Solid rock: impassable, opaque, not yet seen.
    pub fn wall() -> (t: Self)
        ensures
            t == wall_tile(),
    {
        Tile { blocked: true, block_sight: true, explored: false }
    }
}

/// The tile that `Tile::empty` builds.
pub open spec fn floor_tile() -> Tile {
    Tile { blocked: false, block_sight: false, explored: false }
}

/// The tile that `Tile::wall` builds.
pub open spec fn wall_tile() -> Tile {
    Tile { blocked: true, block_sight: true, explored: false }
}

} // verus!

verus! {

/// The dungeon map, indexed as `map[x][y]`.
pub type DungeonMap = Vec<Vec<Tile>>;

/// The map as a sequence of columns.
pub open spec fn grid(map: &DungeonMap) -> Seq<Seq<Tile>> {
    map@.map_values(|column: Vec<Tile>| column@)
}

/// `(x, y)` names a cell of `g`.
pub open spec fn in_grid(g: Seq<Seq<Tile>>, x: int, y: int) -> bool {
    0 <= x < g.len() && 0 <= y < g[x].len()
}

} // verus!

verus! {

/// `g` with every cell that `region` selects turned into floor.
pub open spec fn carve(g: Seq<Seq<Tile>>, region: spec_fn(int, int) -> bool) -> Seq<Seq<Tile>> {
    Seq::new(
        g.len(),
        |x: int| Seq::new(g[x].len(), |y: int| if region(x, y) { floor_tile() } else { g[x][y] }),
    )
}

/// Carving changes no cell's coordinates: the grid keeps its shape.
pub proof fn lemma_carve_shape(g: Seq<Seq<Tile>>, region: spec_fn(int, int) -> bool)
    ensures
        carve(g, region).len() == g.len(),
        forall|x: int| 0 <= x < g.len() ==> #[trigger] carve(g, region)[x].len() == g[x].len(),
        forall|x: int, y: int|
            in_grid(g, x, y) ==> #[trigger] carve(g, region)[x][y] == (if region(x, y) {
                floor_tile()
            } else {
                g[x][y]
            }),
{
}

/// The grid of a map has one column per vector, holding that vector's tiles.
pub proof fn lemma_grid_columns(map: &DungeonMap)
    ensures
        grid(map).len() == map@.len(),
        forall|x: int| 0 <= x < map@.len() ==> #[trigger] grid(map)[x] == map@[x]@,
{
}

/// Turning one more cell into floor extends the carved region by that cell.
pub proof fn lemma_carve_one_more(
    g: Seq<Seq<Tile>>,
    done: spec_fn(int, int) -> bool,
    next: spec_fn(int, int) -> bool,
    x: int,
    y: int,
)
    requires
        in_grid(g, x, y),
        forall|px: int, py: int| #[trigger] next(px, py) == (done(px, py) || (px == x && py == y)),
    ensures
        carve(g, done).update(x, carve(g, done)[x].update(y, floor_tile())) == carve(g, next),
{
    assert(carve(g, done).update(x, carve(g, done)[x].update(y, floor_tile())) =~~= carve(g, next));
}

/// Writing one tile of the map updates exactly that cell of its grid.
pub proof fn lemma_grid_set(before: Seq<Vec<Tile>>, after: Seq<Vec<Tile>>, x: int, y: int, t: Tile)
    requires
        0 <= x < before.len(),
        0 <= y < before[x]@.len(),
        after.len() == before.len(),
        forall|i: int| 0 <= i < before.len() && i != x ==> after[i] == before[i],
        after[x]@ == before[x]@.update(y, t),
    ensures
        after.map_values(|column: Vec<Tile>| column@) == before.map_values(
            |column: Vec<Tile>| column@,
        ).update(x, before[x]@.update(y, t)),
{
    assert(after.map_values(|column: Vec<Tile>| column@) =~= before.map_values(
        |column: Vec<Tile>| column@,
    ).update(x, before[x]@.update(y, t)));
}

} // verus!

verus! {

/// The state of the game that the rules read: the map.
pub struct Game {
    pub map: DungeonMap,
}

} // verus!
