//! Modal overlays: while one is open it captures every key until it
//! resolves.  The fixed set of popups is a tagged enum, each variant
//! carrying its data, in place of opaque behaviour values.

use vstd::prelude::*;
use crate::app::Data;
use crate::app::data_unchanged;
use crate::app::remove_selected_rel;
use crate::keys::Key;

verus! {

/// What a popup asks of the controller after a key: close, terminate,
/// persist and then terminate, or stay open and swallow the key.
#[derive(Clone, Copy, Debug, PartialEq, Eq, Structural)]
pub enum PopupAction {
    Close,
    Exit,
    SaveAndExit,
    Stay,
}

/// The modal overlays of the interface.
pub enum Popup {
    /// Asks to confirm deleting the selected task; carries the prompt.
    ConfirmDelete { text: String },
    /// Asks whether to persist unsaved changes before terminating.
    ConfirmExitSave,
}

/// The action a popup resolves a key to; this alone never touches the
/// task data.
pub open spec fn popup_action_spec(p: Popup, key: Key) -> PopupAction {
    match p {
        Popup::ConfirmDelete { .. } => if key == Key::Char('d') || key == Key::Esc {
            PopupAction::Close
        } else {
            PopupAction::Stay
        },
        Popup::ConfirmExitSave => if key == Key::Char('y') || key == Key::Enter {
            PopupAction::SaveAndExit
        } else if key == Key::Char('n') {
            PopupAction::Exit
        } else if key == Key::Esc {
            PopupAction::Close
        } else {
            PopupAction::Stay
        },
    }
}

/// What a popup does to the task data: only a confirmed deletion
/// mutates it.
pub open spec fn popup_data_rel(p: Popup, key: Key, pre: Data, post: Data) -> bool {
    match p {
        Popup::ConfirmDelete { .. } => if key == Key::Char('d') {
            remove_selected_rel(pre, post)
        } else {
            data_unchanged(pre, post)
        },
        Popup::ConfirmExitSave => data_unchanged(pre, post),
    }
}

impl Popup {
    /// Fixed centered dimensions of the overlay.
    pub fn size(&self) -> (r: (u16, u16))
        ensures
            r.0 == 65 && r.1 == 25,
    {
        (65, 25)
    }

    /// The title above the overlay's border.
    pub fn title(&self) -> (r: String)
        ensures
            r@ == " Warning "@,
    {
        String::from_str(" Warning ")
    }

    /// The body text of the overlay.
    pub fn paragraph(&self) -> (r: String)
        ensures
            match self {
                Popup::ConfirmDelete { text } => r@ == text@,
                Popup::ConfirmExitSave => r@ == "You have unsaved progress. Save it?"@,
            },
    {
        match self {
            Popup::ConfirmDelete { text } => text.clone(),
            Popup::ConfirmExitSave => String::from_str("You have unsaved progress. Save it?"),
        }
    }

    /// Resolves one key: a confirming key runs the popup's effect, a
    /// cancelling key closes the popup, anything else keeps it open and
    /// swallows the key.
    pub fn handle_key_event(&self, key: Key, data: &mut Data) -> (r: PopupAction)
        ensures
            r == popup_action_spec(*self, key),
            popup_data_rel(*self, key, *old(data), *final(data)),
    {
        match self {
            Popup::ConfirmDelete { .. } => {
                if key == Key::Char('d') {
                    data.remove_selected();
                    PopupAction::Close
                } else if key == Key::Esc {
                    PopupAction::Close
                } else {
                    PopupAction::Stay
                }
            },
            Popup::ConfirmExitSave => {
                if key == Key::Char('y') || key == Key::Enter {
                    PopupAction::SaveAndExit
                } else if key == Key::Char('n') {
                    PopupAction::Exit
                } else if key == Key::Esc {
                    PopupAction::Close
                } else {
                    PopupAction::Stay
                }
            },
        }
    }
}

} // verus!
