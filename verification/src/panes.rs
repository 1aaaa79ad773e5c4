//! The two focusable panes.  The tasks pane holds the cursor movement
//! and row-level actions over the filtered view; the description pane
//! holds a cyclic sub-focus over its three regions.  Drawing is left to
//! the terminal layer; everything that decides stands here.

use vstd::prelude::*;
use crate::app::Data;
use crate::app::data_unchanged;
use crate::app::remove_selected_rel;
use crate::app::toggle_complete_rel;
use crate::app::toggle_star_rel;
use crate::keys::Key;
use crate::popups::Popup;
use crate::strutil::chars_extend_str;
use crate::strutil::chars_to_string;
use crate::task::TaskV;
use crate::task::is_default_spec;

verus! {

/// Selection target of the `g` key: the first task, if any is visible.
pub open spec fn first_index(len: nat) -> Option<usize> {
    if len == 0 {
        None
    } else {
        Some(0usize)
    }
}

/// Selection target of the `G` key: the last task, if any is visible.
pub open spec fn last_index(len: nat) -> Option<usize> {
    if len == 0 {
        None
    } else {
        Some((len - 1) as usize)
    }
}

/// Selection target of the `j` key: the next task, wrapping to the
/// first past the end; the first when nothing was selected.
pub open spec fn next_index(idx: Option<usize>, len: nat) -> Option<usize> {
    if len == 0 {
        None
    } else {
        Some(
            match idx {
                Some(i) => if i + 1 >= len {
                    0usize
                } else {
                    (i + 1) as usize
                },
                None => 0usize,
            },
        )
    }
}

/// Selection target of the `k` key: the previous task, wrapping to the
/// last from the first; the first when nothing was selected.
pub open spec fn prev_index(idx: Option<usize>, len: nat) -> Option<usize> {
    if len == 0 {
        None
    } else {
        Some(
            match idx {
                Some(i) => if i == 0 {
                    (len - 1) as usize
                } else {
                    (i - 1) as usize
                },
                None => 0usize,
            },
        )
    }
}

/// A pure cursor move: the collection and filter stay, the selection
/// lands on the target.
pub open spec fn nav_rel(pre: Data, post: Data, target: Option<usize>) -> bool {
    &&& post.tasks_view() == pre.tasks_view()
    &&& post.filter_zen == pre.filter_zen
    &&& post.index == target
}

/// The prompt of the delete-confirmation popup for a task.
pub open spec fn delete_prompt_spec(t: TaskV) -> Seq<char> {
    "Would you like to remove task \""@ + t.subject + ": "@ + t.name + "\""@
}

/// What the `d` key does: a selected task that is still the untouched
/// default placeholder is deleted at once with no popup; any other
/// selected task is left alone and a delete-confirmation popup is
/// requested; without a usable selection nothing happens.
pub open spec fn remove_key_rel(pre: Data, post: Data, popup: Option<Popup>) -> bool {
    match pre.index {
        Some(k) => if (k as nat) < pre.fview().len() {
            let t = pre.fview()[k as int];
            if is_default_spec(t) {
                remove_selected_rel(pre, post) && popup is None
            } else {
                data_unchanged(pre, post) && match popup {
                    Some(Popup::ConfirmDelete { text }) => text@ == delete_prompt_spec(t),
                    _ => false,
                }
            }
        } else {
            data_unchanged(pre, post) && popup is None
        },
        None => data_unchanged(pre, post) && popup is None,
    }
}

/// Everything one key does to the tasks pane, the data and the popup
/// request.
pub open spec fn tasks_pane_key_rel(
    pre_p: TasksPane,
    post_p: TasksPane,
    pre: Data,
    post: Data,
    key: Key,
    popup: Option<Popup>,
) -> bool {
    match key {
        Key::Char(c) => if c == 'G' {
            post_p == pre_p && popup is None && nav_rel(pre, post, last_index(pre.fview().len()))
        } else if c == 'g' {
            post_p == pre_p && popup is None && nav_rel(pre, post, first_index(pre.fview().len()))
        } else if c == 'j' {
            post_p == pre_p && popup is None && nav_rel(
                pre,
                post,
                next_index(pre.index, pre.fview().len()),
            )
        } else if c == 'k' {
            post_p == pre_p && popup is None && nav_rel(
                pre,
                post,
                prev_index(pre.index, pre.fview().len()),
            )
        } else if c == 'i' {
            post_p.show_numbers == !pre_p.show_numbers && data_unchanged(pre, post)
                && popup is None
        } else if c == 'c' {
            post_p == pre_p && popup is None && toggle_complete_rel(pre, post)
        } else if c == 's' {
            post_p == pre_p && popup is None && toggle_star_rel(pre, post)
        } else if c == 'd' {
            post_p == pre_p && remove_key_rel(pre, post, popup)
        } else {
            post_p == pre_p && data_unchanged(pre, post) && popup is None
        },
        _ => post_p == pre_p && data_unchanged(pre, post) && popup is None,
    }
}

/// The table of visible tasks with its cursor actions.
#[derive(Clone, Copy, Debug, PartialEq, Eq, Structural)]
pub struct TasksPane {
    pub show_numbers: bool,
}

impl TasksPane {
    pub fn new() -> (r: Self)
        ensures
            !r.show_numbers,
    {
        TasksPane { show_numbers: false }
    }

    /// Selects the first visible task.
    pub fn first(&self, data: &mut Data)
        ensures
            nav_rel(*old(data), *final(data), first_index(old(data).fview().len())),
    {
        let len = data.len();
        data.index = if len == 0 {
            None
        } else {
            Some(0)
        };
    }

    /// Selects the last visible task.
    pub fn last(&self, data: &mut Data)
        ensures
            nav_rel(*old(data), *final(data), last_index(old(data).fview().len())),
    {
        let len = data.len();
        data.index = if len == 0 {
            None
        } else {
            Some(len - 1)
        };
    }

    /// Selects the next visible task, wrapping around.
    pub fn next(&self, data: &mut Data)
        ensures
            nav_rel(*old(data), *final(data), next_index(old(data).index, old(data).fview().len())),
    {
        let len = data.len();
        data.index = if len == 0 {
            None
        } else {
            Some(
                match data.index {
                    Some(i) => if i >= len - 1 {
                        0
                    } else {
                        i + 1
                    },
                    None => 0,
                },
            )
        };
    }

    /// Selects the previous visible task, wrapping around.
    pub fn previous(&self, data: &mut Data)
        ensures
            nav_rel(*old(data), *final(data), prev_index(old(data).index, old(data).fview().len())),
    {
        let len = data.len();
        data.index = if len == 0 {
            None
        } else {
            Some(
                match data.index {
                    Some(i) => if i == 0 {
                        len - 1
                    } else {
                        i - 1
                    },
                    None => 0,
                },
            )
        };
    }

    /// Shows or hides the row-number column.
    pub fn toggle_numbers(&mut self)
        ensures
            final(self).show_numbers == !old(self).show_numbers,
    {
        self.show_numbers = !self.show_numbers;
    }

    /// The `d` key: delete the selected task outright while it is an
    /// unedited placeholder, else request confirmation.
    pub fn remove(&self, data: &mut Data) -> (r: Option<Popup>)
        ensures
            remove_key_rel(*old(data), *final(data), r),
    {
        let k = match data.index {
            Some(k) => k,
            None => {
                return None;
            },
        };
        let t = match data.get(k) {
            Some(t) => t,
            None => {
                return None;
            },
        };
        if t.is_default() {
            data.remove_selected();
            None
        } else {
            let mut v: Vec<char> = Vec::new();
            chars_extend_str(&mut v, "Would you like to remove task \"");
            chars_extend_str(&mut v, t.subject.as_str());
            chars_extend_str(&mut v, ": ");
            chars_extend_str(&mut v, t.name.as_str());
            chars_extend_str(&mut v, "\"");
            proof {
                assert(v@ =~= delete_prompt_spec(old(data).fview()[k as int]));
            }
            let text = chars_to_string(&v);
            Some(Popup::ConfirmDelete { text })
        }
    }

    /// Routes one key to the pane's actions.
    pub fn handle_key_event(&mut self, key: Key, data: &mut Data) -> (r: Option<Popup>)
        ensures
            tasks_pane_key_rel(*old(self), *final(self), *old(data), *final(data), key, r),
    {
        match key {
            Key::Char(c) => {
                if c == 'G' {
                    self.last(data);
                    None
                } else if c == 'g' {
                    self.first(data);
                    None
                } else if c == 'j' {
                    self.next(data);
                    None
                } else if c == 'k' {
                    self.previous(data);
                    None
                } else if c == 'i' {
                    self.toggle_numbers();
                    None
                } else if c == 'c' {
                    data.toggle_task_status();
                    None
                } else if c == 's' {
                    data.toggle_task_star();
                    None
                } else if c == 'd' {
                    self.remove(data)
                } else {
                    None
                }
            },
            _ => None,
        }
    }
}

/// The three regions of the description pane's sub-focus.
#[derive(Clone, Copy, Debug, PartialEq, Eq, Structural)]
pub enum DescriptionEntry {
    Header,
    Deadline,
    Description,
}

/// One step forward in the cyclic sub-focus; nothing moves while the
/// pane has no sub-focus.
pub open spec fn cycle_next(e: Option<DescriptionEntry>) -> Option<DescriptionEntry> {
    match e {
        Some(DescriptionEntry::Header) => Some(DescriptionEntry::Deadline),
        Some(DescriptionEntry::Deadline) => Some(DescriptionEntry::Description),
        Some(DescriptionEntry::Description) => Some(DescriptionEntry::Header),
        None => None,
    }
}

/// One step backward in the cyclic sub-focus.
pub open spec fn cycle_prev(e: Option<DescriptionEntry>) -> Option<DescriptionEntry> {
    match e {
        Some(DescriptionEntry::Header) => Some(DescriptionEntry::Description),
        Some(DescriptionEntry::Deadline) => Some(DescriptionEntry::Header),
        Some(DescriptionEntry::Description) => Some(DescriptionEntry::Deadline),
        None => None,
    }
}

/// What one key does to the description pane's sub-focus.
pub open spec fn desc_pane_key_rel(
    pre_p: DescriptionPane,
    post_p: DescriptionPane,
    key: Key,
) -> bool {
    match key {
        Key::Char(c) => if c == 'j' {
            post_p.current_entry == cycle_next(pre_p.current_entry)
        } else if c == 'k' {
            post_p.current_entry == cycle_prev(pre_p.current_entry)
        } else {
            post_p == pre_p
        },
        _ => post_p == pre_p,
    }
}

/// The pane showing the selected task in full, with a cyclic sub-focus
/// that only means anything while the pane has overall focus.
#[derive(Clone, Copy, Debug, PartialEq, Eq, Structural)]
pub struct DescriptionPane {
    pub current_entry: Option<DescriptionEntry>,
}

impl Default for DescriptionPane {
    /// A pane without sub-focus.
    fn default() -> (r: Self)
        ensures
            r.current_entry is None,
    {
        DescriptionPane { current_entry: None }
    }
}

impl DescriptionPane {
    /// Moves the sub-focus one region forward.
    pub fn next(&mut self)
        ensures
            final(self).current_entry == cycle_next(old(self).current_entry),
    {
        self.current_entry = match self.current_entry {
            Some(DescriptionEntry::Header) => Some(DescriptionEntry::Deadline),
            Some(DescriptionEntry::Deadline) => Some(DescriptionEntry::Description),
            Some(DescriptionEntry::Description) => Some(DescriptionEntry::Header),
            None => None,
        };
    }

    /// Moves the sub-focus one region backward.
    pub fn previous(&mut self)
        ensures
            final(self).current_entry == cycle_prev(old(self).current_entry),
    {
        self.current_entry = match self.current_entry {
            Some(DescriptionEntry::Header) => Some(DescriptionEntry::Description),
            Some(DescriptionEntry::Deadline) => Some(DescriptionEntry::Header),
            Some(DescriptionEntry::Description) => Some(DescriptionEntry::Deadline),
            None => None,
        };
    }

    /// Routes one key; the pane never requests a popup and never touches
    /// the data.
    pub fn handle_key_event(&mut self, key: Key, data: &mut Data) -> (r: Option<Popup>)
        ensures
            desc_pane_key_rel(*old(self), *final(self), key),
            data_unchanged(*old(data), *final(data)),
            r is None,
    {
        match key {
            Key::Char(c) => {
                if c == 'j' {
                    self.next();
                } else if c == 'k' {
                    self.previous();
                }
            },
            _ => {},
        }
        None
    }

    /// Focus arrives: the sub-focus starts at the header.
    pub fn enter(&mut self)
        ensures
            final(self).current_entry == Some(DescriptionEntry::Header),
    {
        self.current_entry = Some(DescriptionEntry::Header);
    }

    /// Focus leaves: the sub-focus is cleared.
    pub fn leave(&mut self)
        ensures
            final(self).current_entry is None,
    {
        self.current_entry = None;
    }
}

} // verus!
