//! The message window that scripts open, and how it closes.
use crate::script::WaitCondition;
use vstd::prelude::*;

verus! {

/// What closes a message window.
#[derive(Clone, Copy, Debug, PartialEq, Eq, Structural)]
pub enum MessageAdvanceCondition {
    /// The player confirms.
    Input,
    /// The clock (in milliseconds) passes this time.
    Time(u64),
}

/// A message shown to the player.
#[derive(Clone, Debug)]
pub struct MessageWindow {
    pub message: String,
    pub advance_condition: MessageAdvanceCondition,
}

/// The state of the game's own UI.
pub struct UiData {
    pub message_window: Option<MessageWindow>,
}

impl UiData {
    /// No message shown.
    pub fn new() -> (u: UiData)
        ensures
            u.message_window is None,
    {
        UiData { message_window: None }
    }

    /// Shows a message (replacing any shown), closed as `advance` says; a
    /// script that shows it waits for it to close.
    pub fn show_message(&mut self, message: String, advance: MessageAdvanceCondition) -> (w: WaitCondition)
        ensures
            final(self).message_window matches Some(m) && m.message == message && m.advance_condition == advance,
            w matches WaitCondition::Message,
    {
        self.message_window = Some(MessageWindow { message, advance_condition: advance });
        WaitCondition::Message
    }

    /// Closes a timed message whose time has passed at `now`; a message that
    /// waits for input stays.
    pub fn advance_timed_message(&mut self, now: u64)
        ensures
            match old(self).message_window {
                Some(m) => match m.advance_condition {
                    MessageAdvanceCondition::Time(until) => if until < now {
                        final(self).message_window is None
                    } else {
                        final(self).message_window == old(self).message_window
                    },
                    MessageAdvanceCondition::Input => final(self).message_window == old(self).message_window,
                },
                None => final(self).message_window is None,
            },
    {
        let expired = match &self.message_window {
            Some(m) => match m.advance_condition {
                MessageAdvanceCondition::Time(until) => until < now,
                MessageAdvanceCondition::Input => false,
            },
            None => false,
        };
        if expired {
            self.message_window = None;
        }
    }
}

} // verus!
