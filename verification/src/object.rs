use vstd::prelude::*;

verus! {

/// A 24-bit RGB color.
#[derive(Clone, Copy, Debug, PartialEq, Eq, Structural)]
pub struct Color {
    pub r: u8,
    pub g: u8,
    pub b: u8,
}

/// Pure white: the player's color.
#[verifier::allow_in_spec]
pub fn white() -> Color
    returns
        (Color { r: 255, g: 255, b: 255 }),
{
    Color { r: 255, g: 255, b: 255 }
}

/// The color of orcs.
#[verifier::allow_in_spec]
pub fn desaturated_green() -> Color
    returns
        (Color { r: 63, g: 127, b: 63 }),
{
    Color { r: 63, g: 127, b: 63 }
}

/// The color of trolls.
#[verifier::allow_in_spec]
pub fn darker_green() -> Color
    returns
        (Color { r: 0, g: 127, b: 0 }),
{
    Color { r: 0, g: 127, b: 0 }
}

/// The index of the player in the list of objects.
pub const PLAYER: usize = 0;

/// Hit points and combat strength of a creature.
#[derive(Clone, Copy, Debug, PartialEq, Eq, Structural)]
pub struct Fighter {
    pub max_hp: i32,
    pub hp: i32,
    pub defense: i32,
    pub power: i32,
}

/// How a computer-controlled creature decides what to do.
#[derive(Clone, Copy, Debug, PartialEq, Eq, Structural)]
pub enum AI {
    Basic,
}

/// Anything that stands on the map: the player, a monster.
#[derive(Debug)]
pub struct Object {
    pub x: i32,
    pub y: i32,
    pub char: char,
    pub color: Color,
    pub name: String,
    pub blocks: bool,
    pub alive: bool,
    pub fighter: Option<Fighter>,
    pub ai: Option<AI>,
}

/// `o` with its position changed to `(x, y)` and nothing else.
pub open spec fn moved_to(o: Object, x: i32, y: i32) -> Object {
    Object {
        x,
        y,
        char: o.char,
        color: o.color,
        name: o.name,
        blocks: o.blocks,
        alive: o.alive,
        fighter: o.fighter,
        ai: o.ai,
    }
}

impl Object {
    /// A new object at `(x, y)`: not alive, no fighter part, no AI.
    pub fn new(x: i32, y: i32, char: char, name: &str, color: Color, blocks: bool) -> (o: Self)
        ensures
            o.x == x,
            o.y == y,
            o.char == char,
            o.name@ == name@,
            o.color == color,
            o.blocks == blocks,
            !o.alive,
            o.fighter is None,
            o.ai is None,
    {
        Object {
            x: x,
            y: y,
            char: char,
            color: color,
            name: name.to_owned(),
            blocks: blocks,
            alive: false,
            fighter: None,
            ai: None,
        }
    }

    /// The object's position.
    pub fn pos(&self) -> (p: (i32, i32))
        ensures
            p == (self.x, self.y),
    {
        (self.x, self.y)
    }

    /// Move the object to `(x, y)`, leaving everything else as it was.
    pub fn set_pos(&mut self, x: i32, y: i32)
        ensures
            *final(self) == moved_to(*old(self), x, y),
    {
        self.x = x;
        self.y = y;
    }
}

/// The player as a new game starts: `@` at `(x, y)`, alive, with 30 of 30
/// hit points, defense 2 and power 5, no AI.
pub open spec fn is_new_player(o: Object, x: i32, y: i32) -> bool {
    &&& o.x == x && o.y == y
    &&& o.char == '@'
    &&& o.name@ == "player"@
    &&& o.color == white()
    &&& o.blocks && o.alive
    &&& o.fighter == Some(Fighter { max_hp: 30, hp: 30, defense: 2, power: 5 })
    &&& o.ai is None
}

/// A fresh orc at `(x, y)`: `o`, alive, 10 of 10 hit points, defense 0, power 3.
pub open spec fn is_new_orc(o: Object, x: i32, y: i32) -> bool {
    &&& o.x == x && o.y == y
    &&& o.char == 'o'
    &&& o.name@ == "orc"@
    &&& o.color == desaturated_green()
    &&& o.blocks && o.alive
    &&& o.fighter == Some(Fighter { max_hp: 10, hp: 10, defense: 0, power: 3 })
    &&& o.ai == Some(AI::Basic)
}

/// A fresh troll at `(x, y)`: `T`, alive, 16 of 16 hit points, defense 1, power 4.
pub open spec fn is_new_troll(o: Object, x: i32, y: i32) -> bool {
    &&& o.x == x && o.y == y
    &&& o.char == 'T'
    &&& o.name@ == "troll"@
    &&& o.color == darker_green()
    &&& o.blocks && o.alive
    &&& o.fighter == Some(Fighter { max_hp: 16, hp: 16, defense: 1, power: 4 })
    &&& o.ai == Some(AI::Basic)
}

/// The player at `(x, y)`, ready to start a game.
pub fn new_player(x: i32, y: i32) -> (o: Object)
    ensures
        is_new_player(o, x, y),
{
    let mut player = Object::new(x, y, '@', "player", white(), true);
    player.alive = true;
    player.fighter = Some(Fighter { max_hp: 30, hp: 30, defense: 2, power: 5 });
    player
}

/// A monster at `(x, y)`: an orc when `orc` holds, a troll otherwise.
pub fn new_monster(x: i32, y: i32, orc: bool) -> (o: Object)
    ensures
        orc ==> is_new_orc(o, x, y),
        !orc ==> is_new_troll(o, x, y),
{
    let mut monster = if orc {
        let mut orc = Object::new(x, y, 'o', "orc", desaturated_green(), true);
        orc.fighter = Some(Fighter { max_hp: 10, hp: 10, defense: 0, power: 3 });
        orc.ai = Some(AI::Basic);
        orc
    } else {
        let mut troll = Object::new(x, y, 'T', "troll", darker_green(), true);
        troll.fighter = Some(Fighter { max_hp: 16, hp: 16, defense: 1, power: 4 });
        troll.ai = Some(AI::Basic);
        troll
    };
    monster.alive = true;
    monster
}

} // verus!
