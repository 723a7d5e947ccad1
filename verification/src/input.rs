use vstd::prelude::*;
use crate::tile::{Game, grid};
use crate::object::{Object, PLAYER};
use crate::movement::{player_move_or_attack, player_stepped, step_allowed};

verus! {

/// What the player's key press amounted to.
#[derive(Clone, Copy, Debug, PartialEq, Eq, Structural)]
pub enum PlayerAction {
    TookTurn,
    DidntTakeTurn,
    Exit,
}

/// The keys that the game tells apart.
#[derive(Clone, Copy, Debug, PartialEq, Eq, Structural)]
pub enum KeyCode {
    Enter,
    Escape,
    Up,
    Down,
    Left,
    Right,
    Other,
}

/// A key press: the key, and whether Alt was held.
#[derive(Clone, Copy, Debug, PartialEq, Eq, Structural)]
pub struct Key {
    pub code: KeyCode,
    pub alt: bool,
}

/// The answer to a key press: the action it counts as, whether the window
/// should switch between full screen and windowed, and the object the
/// player attacked, if any.
#[derive(Clone, Copy, Debug, PartialEq, Eq, Structural)]
pub struct KeyResponse {
    pub action: PlayerAction,
    pub toggle_fullscreen: bool,
    pub attacked: Option<usize>,
}

/// Whether the key is one of the four arrows.
pub open spec fn is_arrow(code: KeyCode) -> bool {
    code == KeyCode::Up || code == KeyCode::Down || code == KeyCode::Left || code == KeyCode::Right
}

/// The column change that an arrow key asks for.
pub open spec fn arrow_dx(code: KeyCode) -> int {
    match code {
        KeyCode::Left => -1,
        KeyCode::Right => 1,
        _ => 0,
    }
}

/// The row change that an arrow key asks for.
pub open spec fn arrow_dy(code: KeyCode) -> int {
    match code {
        KeyCode::Up => -1,
        KeyCode::Down => 1,
        _ => 0,
    }
}

/// Alt+Enter asks to switch between full screen and windowed.
pub open spec fn is_fullscreen_toggle(key: Key) -> bool {
    key.code == KeyCode::Enter && key.alt
}

/// The player steps with the arrow key of `key`: it is an arrow key and the
/// player is alive.
pub open spec fn is_step(key: Key, objects: Seq<Object>) -> bool {
    is_arrow(key.code) && objects[PLAYER as int].alive
}

/// Answer a key press. Alt+Enter switches the window mode and takes no turn;
/// Escape ends the game; an arrow key, while the player is alive, makes the
/// player step or attack (see `player_move_or_attack`) and takes a turn;
/// any other key takes no turn and changes nothing.
pub fn handle_keys(key: Key, game: &Game, objects: &mut Vec<Object>) -> (response: KeyResponse)
    requires
        PLAYER < old(objects)@.len(),
        is_step(key, old(objects)@) ==> step_allowed(
            grid(&game.map),
            old(objects)@,
            arrow_dx(key.code),
            arrow_dy(key.code),
        ),
    ensures
        is_fullscreen_toggle(key) ==> response == (KeyResponse {
            action: PlayerAction::DidntTakeTurn,
            toggle_fullscreen: true,
            attacked: None,
        }) && final(objects)@ == old(objects)@,
        key.code == KeyCode::Escape ==> response == (KeyResponse {
            action: PlayerAction::Exit,
            toggle_fullscreen: false,
            attacked: None,
        }) && final(objects)@ == old(objects)@,
        is_step(key, old(objects)@) ==> {
            &&& response.action == PlayerAction::TookTurn
            &&& !response.toggle_fullscreen
            &&& player_stepped(
                grid(&game.map),
                old(objects)@,
                final(objects)@,
                arrow_dx(key.code),
                arrow_dy(key.code),
                response.attacked,
            )
        },
        !is_fullscreen_toggle(key) && key.code != KeyCode::Escape && !is_step(key, old(objects)@)
            ==> response == (KeyResponse {
            action: PlayerAction::DidntTakeTurn,
            toggle_fullscreen: false,
            attacked: None,
        }) && final(objects)@ == old(objects)@,
{
    let player_alive = objects[PLAYER].alive;
    if key.code == KeyCode::Enter && key.alt {
        return KeyResponse { action: PlayerAction::DidntTakeTurn, toggle_fullscreen: true, attacked: None };
    }
    if key.code == KeyCode::Escape {
        return KeyResponse { action: PlayerAction::Exit, toggle_fullscreen: false, attacked: None };
    }
    if !player_alive {
        return KeyResponse { action: PlayerAction::DidntTakeTurn, toggle_fullscreen: false, attacked: None };
    }
    let (dx, dy): (i32, i32) = match key.code {
        KeyCode::Up => (0, -1),
        KeyCode::Down => (0, 1),
        KeyCode::Left => (-1, 0),
        KeyCode::Right => (1, 0),
        _ => {
            return KeyResponse {
                action: PlayerAction::DidntTakeTurn,
                toggle_fullscreen: false,
                attacked: None,
            };
        },
    };
    let attacked = player_move_or_attack(dx, dy, game, objects);
    KeyResponse { action: PlayerAction::TookTurn, toggle_fullscreen: false, attacked }
}

} // verus!
