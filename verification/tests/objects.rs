use roguelike::object::{new_monster, new_player, white, Color, Fighter, Object, AI};

#[test]
fn new_object_is_inert() {
    let o = Object::new(4, 5, 'x', "thing", Color { r: 1, g: 2, b: 3 }, false);
    assert_eq!(o.pos(), (4, 5));
    assert_eq!(o.char, 'x');
    assert_eq!(o.name, "thing");
    assert_eq!(o.color, Color { r: 1, g: 2, b: 3 });
    assert!(!o.blocks);
    assert!(!o.alive);
    assert!(o.fighter.is_none());
    assert!(o.ai.is_none());
}

#[test]
fn set_pos_then_pos_reads_back() {
    let mut o = Object::new(0, 0, 'x', "thing", white(), true);
    o.set_pos(17, -3);
    assert_eq!(o.pos(), (17, -3));
    assert_eq!(o.name, "thing");
    assert!(o.blocks);
}

#[test]
fn player_template() {
    let p = new_player(2, 3);
    assert_eq!(p.pos(), (2, 3));
    assert_eq!(p.char, '@');
    assert_eq!(p.name, "player");
    assert_eq!(p.color, Color { r: 255, g: 255, b: 255 });
    assert!(p.blocks && p.alive);
    assert_eq!(p.fighter, Some(Fighter { max_hp: 30, hp: 30, defense: 2, power: 5 }));
    assert!(p.ai.is_none());
}

#[test]
fn orc_template() {
    let o = new_monster(7, 8, true);
    assert_eq!(o.pos(), (7, 8));
    assert_eq!(o.char, 'o');
    assert_eq!(o.name, "orc");
    assert_eq!(o.color, Color { r: 63, g: 127, b: 63 });
    assert!(o.blocks && o.alive);
    assert_eq!(o.fighter, Some(Fighter { max_hp: 10, hp: 10, defense: 0, power: 3 }));
    assert_eq!(o.ai, Some(AI::Basic));
}

#[test]
fn troll_template() {
    let t = new_monster(1, 9, false);
    assert_eq!(t.pos(), (1, 9));
    assert_eq!(t.char, 'T');
    assert_eq!(t.name, "troll");
    assert_eq!(t.color, Color { r: 0, g: 127, b: 0 });
    assert!(t.blocks && t.alive);
    assert_eq!(t.fighter, Some(Fighter { max_hp: 16, hp: 16, defense: 1, power: 4 }));
    assert_eq!(t.ai, Some(AI::Basic));
}
