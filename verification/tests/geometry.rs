use roguelike::geometry::Rect;
use roguelike::tile::Tile;

#[test]
fn empty_tile_is_open() {
    let t = Tile::empty();
    assert!(!t.blocked);
    assert!(!t.block_sight);
    assert!(!t.explored);
}

#[test]
fn wall_tile_is_closed() {
    let t = Tile::wall();
    assert!(t.blocked);
    assert!(t.block_sight);
    assert!(!t.explored);
}

#[test]
fn rect_new_sets_corners() {
    let r = Rect::new(3, 4, 6, 8);
    assert_eq!((r.x1, r.y1, r.x2, r.y2), (3, 4, 9, 12));
}

#[test]
fn rect_center_halves_the_corner_sums() {
    assert_eq!(Rect::new(3, 4, 6, 8).center(), (6, 8));
    assert_eq!(Rect::new(0, 0, 7, 7).center(), (3, 3));
}

#[test]
fn rect_center_rounds_toward_zero_for_negative_sums() {
    // x1 + x2 = -5, y1 + y2 = -3
    let r = Rect { x1: -3, x2: -2, y1: -2, y2: -1 };
    assert_eq!(r.center(), (-2, -1));
}

#[test]
fn rects_sharing_a_border_intersect() {
    let a = Rect::new(0, 0, 5, 5);
    let b = Rect::new(5, 0, 5, 5);
    assert!(a.intersects_with(&b));
    assert!(b.intersects_with(&a));
}

#[test]
fn separate_rects_do_not_intersect() {
    let a = Rect::new(0, 0, 5, 5);
    let b = Rect::new(6, 0, 5, 5);
    assert!(!a.intersects_with(&b));
    assert!(!b.intersects_with(&a));
    let c = Rect::new(0, 6, 5, 5);
    assert!(!a.intersects_with(&c));
}

#[test]
fn rect_intersects_itself() {
    let a = Rect::new(10, 20, 6, 7);
    assert!(a.intersects_with(&a));
}

#[test]
fn center_lies_inside_rect() {
    let r = Rect::new(-7, 2, 9, 3);
    let (cx, cy) = r.center();
    assert!(r.x1 <= cx && cx <= r.x2);
    assert!(r.y1 <= cy && cy <= r.y2);
}
