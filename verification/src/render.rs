use vstd::prelude::*;
use crate::tile::{Tile, DungeonMap, grid};
use crate::object::Color;
use crate::dungeon::{MAP_WIDTH, MAP_HEIGHT};

verus! {

/// The background of a wall out of sight.
#[verifier::allow_in_spec]
pub fn color_dark_wall() -> Color
    returns
        (Color { r: 0, g: 0, b: 100 }),
{
    Color { r: 0, g: 0, b: 100 }
}

/// The background of a wall in sight.
#[verifier::allow_in_spec]
pub fn color_light_wall() -> Color
    returns
        (Color { r: 130, g: 110, b: 50 }),
{
    Color { r: 130, g: 110, b: 50 }
}

/// The background of floor out of sight.
#[verifier::allow_in_spec]
pub fn color_dark_ground() -> Color
    returns
        (Color { r: 50, g: 50, b: 150 }),
{
    Color { r: 50, g: 50, b: 150 }
}

/// The background of floor in sight.
#[verifier::allow_in_spec]
pub fn color_light_ground() -> Color
    returns
        (Color { r: 200, g: 180, b: 50 }),
{
    Color { r: 200, g: 180, b: 50 }
}

/// The background of a tile: light when in sight, dark otherwise; a wall
/// color for a tile that blocks sight, a ground color otherwise.
pub open spec fn background(visible: bool, wall: bool) -> Color {
    match (visible, wall) {
        (false, true) => color_dark_wall(),
        (false, false) => color_dark_ground(),
        (true, true) => color_light_wall(),
        (true, false) => color_light_ground(),
    }
}

/// The background color of a tile, given whether it is in sight and whether it is a wall.
pub fn tile_color(visible: bool, wall: bool) -> (c: Color)
    ensures
        c == background(visible, wall),
{
    match (visible, wall) {
        (false, true) => color_dark_wall(),
        (false, false) => color_dark_ground(),
        (true, true) => color_light_wall(),
        (true, false) => color_light_ground(),
    }
}

/// A tile after a look at it: explored once it has been in sight.
pub open spec fn revealed(t: Tile, seen: bool) -> Tile {
    Tile { blocked: t.blocked, block_sight: t.block_sight, explored: t.explored || seen }
}

/// The part of the map that is drawn: `MAP_WIDTH` by `MAP_HEIGHT` from the corner.
pub open spec fn on_screen(x: int, y: int) -> bool {
    0 <= x < MAP_WIDTH && 0 <= y < MAP_HEIGHT
}

/// The cells on screen before column `x`, or in column `x` before row `y`.
pub open spec fn shown_before(x: int, y: int) -> spec_fn(int, int) -> bool {
    |px: int, py: int| on_screen(px, py) && (px < x || (px == x && py < y))
}

/// `g` with the cells that `region` selects looked at, `seen` telling which are in sight.
pub open spec fn look_at(g: Seq<Seq<Tile>>, seen: Seq<Seq<bool>>, region: spec_fn(int, int) -> bool) -> Seq<Seq<Tile>> {
    Seq::new(
        g.len(),
        |x: int| Seq::new(g[x].len(), |y: int| if region(x, y) { revealed(g[x][y], seen[x][y]) } else { g[x][y] }),
    )
}

/// The grid reaches at least `MAP_WIDTH` by `MAP_HEIGHT`.
pub open spec fn covers_screen<T>(g: Seq<Seq<T>>) -> bool {
    &&& g.len() >= MAP_WIDTH
    &&& forall|x: int| 0 <= x < MAP_WIDTH ==> #[trigger] g[x].len() >= MAP_HEIGHT
}

/// The rows of a vector of columns, as sequences.
pub open spec fn columns<T>(v: Seq<Vec<T>>) -> Seq<Seq<T>> {
    v.map_values(|c: Vec<T>| c@)
}

} // verus!

verus! {

/// How a tile is drawn: in its background color once explored, not at all before.
pub open spec fn shade(t: Tile, seen: bool) -> Option<Color> {
    if t.explored {
        Some(background(seen, t.block_sight))
    } else {
        None
    }
}

/// Look at the map: every tile on screen that is in sight (as `visible[x][y]`
/// says) becomes explored, and the result holds, for each cell on screen,
/// the background to draw there (`None` for a cell not yet explored),
/// indexed as `[x][y]`. Tiles off screen are left alone.
pub fn shade_map(map: &mut DungeonMap, visible: &Vec<Vec<bool>>) -> (shades: Vec<Vec<Option<Color>>>)
    requires
        covers_screen(grid(old(map))),
        covers_screen(columns(visible@)),
    ensures
        grid(final(map)) == look_at(
            grid(old(map)),
            columns(visible@),
            |x: int, y: int| on_screen(x, y),
        ),
        shades@.len() == MAP_WIDTH,
        forall|x: int| 0 <= x < MAP_WIDTH ==> #[trigger] shades@[x]@.len() == MAP_HEIGHT,
        forall|x: int, y: int|
            on_screen(x, y) ==> #[trigger] shades@[x]@[y] == shade(
                revealed(grid(old(map))[x][y], visible@[x]@[y]),
                visible@[x]@[y],
            ),
{
    let ghost g0 = grid(map);
    let ghost seen = columns(visible@);
    let mut shades: Vec<Vec<Option<Color>>> = Vec::new();
    let mut x: i32 = 0;
    assert(grid(map) =~~= look_at(g0, seen, shown_before(0, 0)));
    while x < MAP_WIDTH
        invariant
            0 <= x <= MAP_WIDTH,
            seen == columns(visible@),
            covers_screen(g0),
            covers_screen(seen),
            grid(map) == look_at(g0, seen, shown_before(x as int, 0)),
            shades@.len() == x,
            forall|i: int| 0 <= i < x ==> #[trigger] shades@[i]@.len() == MAP_HEIGHT,
            forall|i: int, j: int|
                0 <= i < x && 0 <= j < MAP_HEIGHT ==> #[trigger] shades@[i]@[j] == shade(
                    revealed(g0[i][j], visible@[i]@[j]),
                    visible@[i]@[j],
                ),
        decreases MAP_WIDTH - x,
    {
        let mut column: Vec<Option<Color>> = Vec::new();
        let mut y: i32 = 0;
        assert(shown_before(x as int, 0) =~= shown_before(x as int, y as int));
        while y < MAP_HEIGHT
            invariant
                0 <= x < MAP_WIDTH,
                0 <= y <= MAP_HEIGHT,
                seen == columns(visible@),
                covers_screen(g0),
                covers_screen(seen),
                grid(map) == look_at(g0, seen, shown_before(x as int, y as int)),
                column@.len() == y,
                forall|j: int|
                    0 <= j < y ==> #[trigger] column@[j] == shade(
                        revealed(g0[x as int][j], visible@[x as int]@[j]),
                        visible@[x as int]@[j],
                    ),
            decreases MAP_HEIGHT - y,
        {
            proof {
                crate::tile::lemma_grid_columns(map);
                assert(seen[x as int] == visible@[x as int]@);
                assert(g0[x as int].len() >= MAP_HEIGHT);
                assert(look_at(g0, seen, shown_before(x as int, y as int))[x as int].len() == g0[x as int].len());
                assert(look_at(g0, seen, shown_before(x as int, y as int))[x as int][y as int] == g0[x as int][y as int]);
            }
            let seen_here = visible[x as usize][y as usize];
            let t = map[x as usize][y as usize];
            let looked = Tile { blocked: t.blocked, block_sight: t.block_sight, explored: t.explored || seen_here };
            let ghost before = map@;
            map[x as usize][y as usize] = looked;
            proof {
                crate::tile::lemma_grid_set(before, map@, x as int, y as int, looked);
                assert(grid(map) =~~= look_at(g0, seen, shown_before(x as int, y + 1)));
            }
            let shown = if looked.explored {
                Some(tile_color(seen_here, looked.block_sight))
            } else {
                None
            };
            column.push(shown);
            y = y + 1;
        }
        shades.push(column);
        assert(shown_before(x as int, MAP_HEIGHT as int) =~= shown_before(x + 1, 0));
        x = x + 1;
    }
    assert(shown_before(MAP_WIDTH as int, 0) =~= |x: int, y: int| on_screen(x, y));
    shades
}

} // verus!
