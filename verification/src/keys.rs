//! The key map: which intent a key stands for, given the screen that is shown
//! and whether the popup is open.

use crate::session::{Effect, Intent, Screen, Session};
use vstd::prelude::*;

verus! {

/// A key press, as far as the session tells keys apart.
#[derive(Debug, PartialEq, Eq, Clone, Copy, Structural)]
pub enum Key {
    /// A character key.
    Char(char),
    /// Arrow up.
    Up,
    /// Arrow down.
    Down,
    /// Enter.
    Enter,
    /// Escape.
    Esc,
    /// Backspace.
    Backspace,
    /// Delete.
    Delete,
    /// Any other key.
    Other,
}

/// The intent of a key while the popup is open: the popup takes every
/// character as input, whatever screen lies under it.
pub open spec fn popup_intent(key: Key) -> Option<Intent> {
    match key {
        Key::Esc => Some(Intent::CancelPopup),
        Key::Char(c) => Some(Intent::PopupTypeChar(c)),
        Key::Backspace => Some(Intent::PopupBackspace),
        Key::Enter => Some(Intent::PopupSubmit),
        _ => None,
    }
}

/// The intent of a key on the process screen.
pub open spec fn process_list_intent(key: Key) -> Option<Intent> {
    match key {
        Key::Char(c) => if c == 'q' {
            Some(Intent::Quit)
        } else if c == 'r' {
            Some(Intent::Refresh)
        } else if c == 'f' {
            Some(Intent::FilterSelectedProcess)
        } else if c == 'F' {
            Some(Intent::ToggleView)
        } else if c == 'k' {
            Some(Intent::KillSelected)
        } else {
            None
        },
        Key::Up => Some(Intent::NavigateUp),
        Key::Down => Some(Intent::NavigateDown),
        Key::Enter => Some(Intent::KillSelected),
        _ => None,
    }
}

/// The intent of a key on the filter screen.
pub open spec fn filter_management_intent(key: Key) -> Option<Intent> {
    match key {
        Key::Char(c) => if c == 'q' {
            Some(Intent::Quit)
        } else if c == 'a' {
            Some(Intent::OpenAddFilterPopup)
        } else if c == 'F' {
            Some(Intent::ToggleView)
        } else {
            None
        },
        Key::Up => Some(Intent::NavigateUp),
        Key::Down => Some(Intent::NavigateDown),
        Key::Enter => Some(Intent::RemoveSelectedFilter),
        Key::Delete => Some(Intent::RemoveSelectedFilter),
        _ => None,
    }
}

/// The intent that a key stands for, if it stands for one.
pub open spec fn intent_of(screen: Screen, popup_open: bool, key: Key) -> Option<Intent> {
    if popup_open {
        popup_intent(key)
    } else {
        match screen {
            Screen::ProcessList => process_list_intent(key),
            Screen::FilterManagement => filter_management_intent(key),
        }
    }
}

/// While the popup is open no key reaches the screen under it: a key stands
/// for an intent of the popup or for none, and every character is typed into
/// the popup.
pub proof fn lemma_popup_captures_keys(screen: Screen, key: Key)
    ensures
        match intent_of(screen, true, key) {
            Some(intent) => intent is CancelPopup || intent is PopupTypeChar || intent
                is PopupBackspace || intent is PopupSubmit,
            None => true,
        },
        forall|c: char| intent_of(screen, true, Key::Char(c)) == Some(Intent::PopupTypeChar(c)),
        intent_of(screen, true, key) == intent_of(Screen::ProcessList, true, key),
{
}

/// The intent that a key stands for.
pub fn intent_for_key(screen: Screen, popup_open: bool, key: Key) -> (intent: Option<Intent>)
    ensures
        intent == intent_of(screen, popup_open, key),
{
    if popup_open {
        match key {
            Key::Esc => Some(Intent::CancelPopup),
            Key::Char(c) => Some(Intent::PopupTypeChar(c)),
            Key::Backspace => Some(Intent::PopupBackspace),
            Key::Enter => Some(Intent::PopupSubmit),
            _ => None,
        }
    } else {
        match (screen, key) {
            (_, Key::Char('q')) => Some(Intent::Quit),
            (_, Key::Char('F')) => Some(Intent::ToggleView),
            (_, Key::Up) => Some(Intent::NavigateUp),
            (_, Key::Down) => Some(Intent::NavigateDown),
            (Screen::ProcessList, Key::Char('r')) => Some(Intent::Refresh),
            (Screen::ProcessList, Key::Char('f')) => Some(Intent::FilterSelectedProcess),
            (Screen::ProcessList, Key::Char('k')) => Some(Intent::KillSelected),
            (Screen::ProcessList, Key::Enter) => Some(Intent::KillSelected),
            (Screen::FilterManagement, Key::Char('a')) => Some(Intent::OpenAddFilterPopup),
            (Screen::FilterManagement, Key::Enter) => Some(Intent::RemoveSelectedFilter),
            (Screen::FilterManagement, Key::Delete) => Some(Intent::RemoveSelectedFilter),
            _ => None,
        }
    }
}

impl Session {
    /// Handles a key press: the intent that the key stands for is handled, and
    /// a key that stands for none changes nothing.
    pub fn press(&mut self, key: Key) -> (effect: Effect)
        requires
            old(self).wf(),
        ensures
            final(self).wf(),
            match intent_of(old(self)@.screen, old(self)@.popup is Some, key) {
                Some(intent) => {
                    &&& final(self)@ == old(self)@.after(intent)
                    &&& effect == old(self)@.effect(intent)
                },
                None => *final(self) == *old(self) && effect == Effect::Idle,
            },
    {
        match intent_for_key(self.screen(), self.popup_active(), key) {
            Some(intent) => self.handle(intent),
            None => Effect::Idle,
        }
    }
}

} // verus!
