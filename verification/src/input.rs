//! The decisions of input handling: what an input event does given the
//! message window and player lock, and which way the player walks.
use crate::components::Direction;
use vstd::prelude::*;

verus! {

/// An input event, as far as the game tells events apart.
#[derive(Clone, Copy, Debug, PartialEq, Eq, Structural)]
pub enum InputEvent {
    /// The window was closed.
    Quit,
    /// The backquote key went down.
    ToggleDevUi,
    /// Return or space went down.
    Confirm,
    /// Anything else.
    Other,
}

/// What an input event does.
#[derive(Clone, Copy, Debug, PartialEq, Eq, Structural)]
pub struct InputResponse {
    /// Stop the game.
    pub quit: bool,
    /// Open or close the developer UI.
    pub toggle_dev_ui: bool,
    /// Close the message window (the event is used up by it).
    pub close_message: bool,
    /// Start the interaction scripts in front of the player.
    pub interact: bool,
}

/// What an event does: quitting and toggling the developer UI always
/// happen; confirming closes an open message window and is used up by it,
/// and otherwise, when the player is not locked, interacts.
pub fn respond_to_event(event: InputEvent, message_open: bool, player_locked: bool) -> (r: InputResponse)
    ensures
        r.quit == (event == InputEvent::Quit),
        r.toggle_dev_ui == (event == InputEvent::ToggleDevUi),
        r.close_message == (event == InputEvent::Confirm && message_open),
        r.interact == (event == InputEvent::Confirm && !message_open && !player_locked),
{
    let confirm = match event {
        InputEvent::Confirm => true,
        _ => false,
    };
    InputResponse {
        quit: match event {
            InputEvent::Quit => true,
            _ => false,
        },
        toggle_dev_ui: match event {
            InputEvent::ToggleDevUi => true,
            _ => false,
        },
        close_message: confirm && message_open,
        interact: confirm && !message_open && !player_locked,
    }
}

/// The direction the player walks, one step per axis: up and left count
/// negative, down and right positive; no movement while a message is open
/// or the player is locked.
pub fn movement_direction(up: bool, down: bool, left: bool, right: bool, message_open: bool, player_locked: bool) -> (r: (i32, i32))
    ensures
        message_open || player_locked ==> r == (0i32, 0i32),
        !(message_open || player_locked) ==> r.0 == (if right { 1int } else { 0 }) - (if left { 1int } else { 0 })
            && r.1 == (if down { 1int } else { 0 }) - (if up { 1int } else { 0 }),
{
    if message_open || player_locked {
        return (0, 0);
    }
    let mut x: i32 = 0;
    let mut y: i32 = 0;
    if up {
        y = y - 1;
    }
    if down {
        y = y + 1;
    }
    if left {
        x = x - 1;
    }
    if right {
        x = x + 1;
    }
    (x, y)
}

/// Where the player looks for something to interact with, in half cells
/// from its position: one half cell in the direction it faces.
pub fn interaction_offset(facing: Direction) -> (r: (i32, i32))
    ensures
        r == match facing {
            Direction::Up => (0i32, -1i32),
            Direction::Down => (0i32, 1i32),
            Direction::Left => (-1i32, 0i32),
            Direction::Right => (1i32, 0i32),
        },
{
    match facing {
        Direction::Up => (0, -1),
        Direction::Down => (0, 1),
        Direction::Left => (-1, 0),
        Direction::Right => (1, 0),
    }
}

} // verus!
