use roguelike::dungeon::{MAP_HEIGHT, MAP_WIDTH};
use roguelike::object::Color;
use roguelike::render::{shade_map, tile_color};
use roguelike::tile::Tile;

const DARK_WALL: Color = Color { r: 0, g: 0, b: 100 };
const LIGHT_WALL: Color = Color { r: 130, g: 110, b: 50 };
const DARK_GROUND: Color = Color { r: 50, g: 50, b: 150 };
const LIGHT_GROUND: Color = Color { r: 200, g: 180, b: 50 };

#[test]
fn tile_colors() {
    assert_eq!(tile_color(false, true), DARK_WALL);
    assert_eq!(tile_color(false, false), DARK_GROUND);
    assert_eq!(tile_color(true, true), LIGHT_WALL);
    assert_eq!(tile_color(true, false), LIGHT_GROUND);
}

#[test]
fn looking_explores_what_is_seen_and_remembers_it() {
    let w = MAP_WIDTH as usize;
    let h = MAP_HEIGHT as usize;
    let mut map = vec![vec![Tile::empty(); h]; w];
    map[3][4] = Tile::wall();
    let mut visible = vec![vec![false; h]; w];
    visible[3][4] = true;
    visible[5][5] = true;

    let shades = shade_map(&mut map, &visible);
    assert_eq!(shades.len(), w);
    assert!(shades.iter().all(|c| c.len() == h));
    assert_eq!(shades[3][4], Some(LIGHT_WALL));
    assert_eq!(shades[5][5], Some(LIGHT_GROUND));
    assert_eq!(shades[0][0], None);
    assert!(map[3][4].explored && map[5][5].explored && !map[0][0].explored);
    assert!(map[3][4].blocked && !map[5][5].blocked);

    // out of sight now: still drawn, in the dark colors
    let dark = vec![vec![false; h]; w];
    let shades = shade_map(&mut map, &dark);
    assert_eq!(shades[3][4], Some(DARK_WALL));
    assert_eq!(shades[5][5], Some(DARK_GROUND));
    assert_eq!(shades[6][6], None);
    assert!(map[3][4].explored && map[5][5].explored);
}

#[test]
fn tiles_beyond_the_screen_are_left_alone() {
    let w = MAP_WIDTH as usize + 2;
    let h = MAP_HEIGHT as usize + 1;
    let mut map = vec![vec![Tile::empty(); h]; w];
    let visible = vec![vec![true; h]; w];
    let shades = shade_map(&mut map, &visible);
    assert_eq!(shades.len(), MAP_WIDTH as usize);
    assert!(map[w - 1][0].explored == false);
    assert!(map[0][h - 1].explored == false);
    assert!(map[0][0].explored);
}
