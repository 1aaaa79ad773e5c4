//! The ordered, filterable view over the task collection with its
//! selection cursor, and the key-routing controller of the two-pane
//! interface.

use vstd::prelude::*;
use crate::task::Task;
use crate::task::TaskV;
use crate::task::TaskStatus;
use crate::task::spec_status;
use crate::task::views_of;
use crate::sorting::sort_spec;
use crate::sorting::sort_tasks;
use crate::keys::Key;
use crate::panes::TasksPane;
use crate::panes::DescriptionPane;
use crate::panes::DescriptionEntry;
use crate::panes::tasks_pane_key_rel;
use crate::panes::desc_pane_key_rel;
use crate::popups::Popup;
use crate::popups::PopupAction;
use crate::popups::popup_action_spec;
use crate::popups::popup_data_rel;
use crate::task::is_default_spec;
use crate::task::tasks_wf_seq;

verus! {

/// Whether the Zen filter keeps a task visible: everything is visible
/// while the filter is off; with it on, complete tasks (exactly the Zen
/// ones, whatever the moment) are hidden.
pub open spec fn included(t: TaskV, filter_zen: bool) -> bool {
    !(filter_zen && t.complete)
}

/// The filtered view of a task sequence.
pub open spec fn view_of(tasks: Seq<TaskV>, filter_zen: bool) -> Seq<TaskV> {
    tasks.filter(|t: TaskV| included(t, filter_zen))
}

/// The active filter hides a task exactly when the task's status is Zen,
/// whatever duration the status is derived from.
pub proof fn lemma_included_hides_zen(t: TaskV, d: Option<i64>)
    ensures
        included(t, true) <==> spec_status(t.complete, d) != TaskStatus::Zen,
{
    crate::task::lemma_zen_iff_complete(t.complete, d);
}

proof fn lemma_view_singleton(x: TaskV, f: bool)
    ensures
        view_of(seq![x], f) == if included(x, f) {
            seq![x]
        } else {
            Seq::<TaskV>::empty()
        },
{
    reveal(Seq::filter);
    assert(seq![x].drop_last() =~= Seq::<TaskV>::empty());
    assert(view_of(Seq::<TaskV>::empty(), f) =~= Seq::<TaskV>::empty());
    assert(seq![x].last() == x);
    if included(x, f) {
        assert(Seq::<TaskV>::empty().push(x) =~= seq![x]);
    }
}

proof fn lemma_view_push(s: Seq<TaskV>, f: bool, x: TaskV)
    ensures
        view_of(s.push(x), f) == view_of(s, f) + (if included(x, f) {
            seq![x]
        } else {
            Seq::<TaskV>::empty()
        }),
{
    reveal(Seq::filter);
    assert(s.push(x).drop_last() =~= s);
    assert(s.push(x).last() == x);
    if included(x, f) {
        assert(view_of(s, f).push(x) =~= view_of(s, f) + seq![x]);
    } else {
        assert(view_of(s, f) =~= view_of(s, f) + Seq::<TaskV>::empty());
    }
}

pub proof fn lemma_view_concat(a: Seq<TaskV>, b: Seq<TaskV>, f: bool)
    ensures
        view_of(a + b, f) == view_of(a, f) + view_of(b, f),
    decreases b.len(),
{
    if b.len() == 0 {
        reveal(Seq::filter);
        assert(a + b =~= a);
        assert(view_of(b, f) =~= Seq::<TaskV>::empty());
        assert(view_of(a, f) + view_of(b, f) =~= view_of(a, f));
    } else {
        lemma_view_concat(a, b.drop_last(), f);
        lemma_view_push(a + b.drop_last(), f, b.last());
        lemma_view_push(b.drop_last(), f, b.last());
        assert((a + b.drop_last()).push(b.last()) =~= a + b);
        assert(b.drop_last().push(b.last()) =~= b);
        let tail = if included(b.last(), f) {
            seq![b.last()]
        } else {
            Seq::<TaskV>::empty()
        };
        assert(view_of(a, f) + view_of(b.drop_last(), f) + tail =~= view_of(a, f) + (view_of(
            b.drop_last(),
            f,
        ) + tail));
    }
}

/// The position, in the underlying collection, of the `k`-th task of the
/// filtered view.
pub open spec fn raw_index_of(s: Seq<TaskV>, f: bool, k: int) -> int
    decreases s.len(),
{
    if s.len() == 0 {
        0
    } else if included(s[0], f) {
        if k == 0 {
            0
        } else {
            1 + raw_index_of(s.drop_first(), f, k - 1)
        }
    } else {
        1 + raw_index_of(s.drop_first(), f, k)
    }
}

/// What the position resolved through the filter satisfies: it lies in
/// the collection, is visible, has exactly `k` visible tasks before it,
/// and carries the `k`-th task of the view.
pub proof fn lemma_raw_index_of(s: Seq<TaskV>, f: bool, k: int)
    requires
        0 <= k < view_of(s, f).len(),
    ensures
        0 <= raw_index_of(s, f, k) < s.len(),
        included(s[raw_index_of(s, f, k)], f),
        view_of(s.subrange(0, raw_index_of(s, f, k)), f).len() == k,
        view_of(s, f)[k] == s[raw_index_of(s, f, k)],
    decreases s.len(),
{
    if s.len() == 0 {
        reveal(Seq::filter);
    } else {
        let rest = s.drop_first();
        assert(seq![s[0]] + rest =~= s);
        lemma_view_concat(seq![s[0]], rest, f);
        lemma_view_singleton(s[0], f);
        if included(s[0], f) {
            if k == 0 {
                assert(s.subrange(0, 0) =~= Seq::<TaskV>::empty());
                reveal(Seq::filter);
                assert(view_of(s, f)[0] == s[0]);
            } else {
                lemma_raw_index_of(rest, f, k - 1);
                let j1 = raw_index_of(rest, f, k - 1);
                let j = 1 + j1;
                assert(s[j] == rest[j1]);
                assert(s.subrange(0, j) =~= seq![s[0]] + rest.subrange(0, j1));
                lemma_view_concat(seq![s[0]], rest.subrange(0, j1), f);
                assert(view_of(s, f)[k] == (view_of(seq![s[0]], f) + view_of(rest, f))[k]);
            }
        } else {
            lemma_raw_index_of(rest, f, k);
            let j1 = raw_index_of(rest, f, k);
            let j = 1 + j1;
            assert(s[j] == rest[j1]);
            assert(s.subrange(0, j) =~= seq![s[0]] + rest.subrange(0, j1));
            lemma_view_concat(seq![s[0]], rest.subrange(0, j1), f);
        }
    }
}

/// Only one position has exactly `k` visible tasks before it and is
/// itself visible.
pub proof fn lemma_raw_index_unique(s: Seq<TaskV>, f: bool, k: int, j1: int, j2: int)
    requires
        0 <= j1 < s.len(),
        0 <= j2 < s.len(),
        included(s[j1], f),
        included(s[j2], f),
        view_of(s.subrange(0, j1), f).len() == k,
        view_of(s.subrange(0, j2), f).len() == k,
    ensures
        j1 == j2,
{
    if j1 < j2 {
        assert(s.subrange(0, j2) =~= s.subrange(0, j1) + s.subrange(j1, j2));
        lemma_view_concat(s.subrange(0, j1), s.subrange(j1, j2), f);
        let mid = s.subrange(j1, j2);
        assert(seq![mid[0]] + mid.drop_first() =~= mid);
        lemma_view_concat(seq![mid[0]], mid.drop_first(), f);
        lemma_view_singleton(mid[0], f);
        assert(mid[0] == s[j1]);
        assert(view_of(mid, f).len() >= 1);
    } else if j2 < j1 {
        assert(s.subrange(0, j1) =~= s.subrange(0, j2) + s.subrange(j2, j1));
        lemma_view_concat(s.subrange(0, j2), s.subrange(j2, j1), f);
        let mid = s.subrange(j2, j1);
        assert(seq![mid[0]] + mid.drop_first() =~= mid);
        lemma_view_concat(seq![mid[0]], mid.drop_first(), f);
        lemma_view_singleton(mid[0], f);
        assert(mid[0] == s[j2]);
        assert(view_of(mid, f).len() >= 1);
    }
}

/// The selection after the filtered view's length changed: absent when
/// the view is empty, otherwise kept but pulled back into range, or set
/// to the first task when it was absent.
pub open spec fn clamped_index(idx: Option<usize>, len: nat) -> Option<usize> {
    if len == 0 {
        None
    } else {
        match idx {
            Some(x) => Some(
                if (x as nat) < len {
                    x
                } else {
                    (len - 1) as usize
                },
            ),
            None => Some(0usize),
        }
    }
}

/// A task with the completion flag flipped.
pub open spec fn complete_toggled(t: TaskV) -> TaskV {
    TaskV {
        complete: !t.complete,
        name: t.name,
        description: t.description,
        subject: t.subject,
        time: t.time,
        starred: t.starred,
    }
}

/// A task with the star flipped.
pub open spec fn star_toggled(t: TaskV) -> TaskV {
    TaskV {
        starred: !t.starred,
        name: t.name,
        description: t.description,
        subject: t.subject,
        time: t.time,
        complete: t.complete,
    }
}

/// The collection, filter and selection all kept as they were.
pub open spec fn data_unchanged(pre: Data, post: Data) -> bool {
    &&& post.tasks_view() == pre.tasks_view()
    &&& post.index == pre.index
    &&& post.filter_zen == pre.filter_zen
}

/// What toggling the completion flag of the selected task does: the task
/// the selection resolves to (through the active filter) is flipped and
/// the selection is clamped into the possibly shorter view; without a
/// usable selection nothing changes.
pub open spec fn toggle_complete_rel(pre: Data, post: Data) -> bool {
    &&& post.filter_zen == pre.filter_zen
    &&& match pre.index {
        None => post.tasks_view() == pre.tasks_view() && post.index == pre.index,
        Some(k) => if (k as nat) < pre.fview().len() {
            let j = raw_index_of(pre.tasks_view(), pre.filter_zen, k as int);
            &&& post.tasks_view() == pre.tasks_view().update(
                j,
                complete_toggled(pre.tasks_view()[j]),
            )
            &&& post.index == clamped_index(pre.index, post.fview().len() as nat)
        } else {
            post.tasks_view() == pre.tasks_view() && post.index == pre.index
        },
    }
}

/// What toggling the star of the selected task does; the view keeps its
/// length, so the selection stays.
pub open spec fn toggle_star_rel(pre: Data, post: Data) -> bool {
    &&& post.filter_zen == pre.filter_zen
    &&& post.index == pre.index
    &&& match pre.index {
        None => post.tasks_view() == pre.tasks_view(),
        Some(k) => if (k as nat) < pre.fview().len() {
            let j = raw_index_of(pre.tasks_view(), pre.filter_zen, k as int);
            post.tasks_view() == pre.tasks_view().update(j, star_toggled(pre.tasks_view()[j]))
        } else {
            post.tasks_view() == pre.tasks_view()
        },
    }
}

/// What removing the selected task does: the task the selection resolves
/// to leaves the collection and the selection is clamped into the
/// shorter view; without a usable selection nothing changes.
pub open spec fn remove_selected_rel(pre: Data, post: Data) -> bool {
    &&& post.filter_zen == pre.filter_zen
    &&& match pre.index {
        None => post.tasks_view() == pre.tasks_view() && post.index == pre.index,
        Some(k) => if (k as nat) < pre.fview().len() {
            let j = raw_index_of(pre.tasks_view(), pre.filter_zen, k as int);
            &&& post.tasks_view() == pre.tasks_view().remove(j)
            &&& post.index == clamped_index(pre.index, post.fview().len() as nat)
        } else {
            post.tasks_view() == pre.tasks_view() && post.index == pre.index
        },
    }
}

/// What toggling the Zen filter does: the filter flips, the collection
/// stays, the selection is clamped into the new view.
pub open spec fn toggle_filter_rel(pre: Data, post: Data) -> bool {
    &&& post.filter_zen == !pre.filter_zen
    &&& post.tasks_view() == pre.tasks_view()
    &&& post.index == clamped_index(pre.index, post.fview().len() as nat)
}

/// The task collection in its persisted order, the Zen filter, and the
/// selection cursor into the filtered view.
pub struct Data {
    pub index: Option<usize>,
    pub tasks: Vec<Task>,
    pub filter_zen: bool,
}

impl Data {
    /// The values of the task collection.
    pub open spec fn tasks_view(self) -> Seq<TaskV> {
        views_of(self.tasks@)
    }

    /// The filtered view the selection cursor addresses.
    pub open spec fn fview(self) -> Seq<TaskV> {
        view_of(self.tasks_view(), self.filter_zen)
    }

    /// Every deadline in the collection is a representable instant.
    pub open spec fn tasks_wf(self) -> bool {
        tasks_wf_seq(self.tasks_view())
    }

    /// A fresh view over loaded tasks: no filter, the first task
    /// selected when there is one.
    pub fn new(tasks: Vec<Task>) -> (r: Self)
        ensures
            r.tasks@ == tasks@,
            !r.filter_zen,
            r.index == (if tasks@.len() == 0 {
                None::<usize>
            } else {
                Some(0usize)
            }),
    {
        let index = if tasks.len() == 0 {
            None
        } else {
            Some(0)
        };
        Data { index, tasks, filter_zen: false }
    }

    /// Reorders the collection into the display order (the stable sort
    /// of `sorting`); filter and selection are untouched.
    pub fn sort(&mut self)
        ensures
            final(self).tasks_view() == sort_spec(old(self).tasks_view()),
            final(self).index == old(self).index,
            final(self).filter_zen == old(self).filter_zen,
    {
        sort_tasks(&mut self.tasks);
    }

    /// How many tasks the filtered view holds.
    pub fn len(&self) -> (r: usize)
        ensures
            r == self.fview().len(),
    {
        let mut count: usize = 0;
        let mut i: usize = 0;
        proof {
            reveal(Seq::filter);
            assert(self.tasks_view().subrange(0, 0) =~= Seq::<TaskV>::empty());
        }
        while i < self.tasks.len()
            invariant
                i <= self.tasks@.len(),
                count == view_of(self.tasks_view().subrange(0, i as int), self.filter_zen).len(),
                count <= i,
        decreases self.tasks@.len() - i,
        {
            proof {
                let pre = self.tasks_view().subrange(0, i as int);
                let cur = self.tasks_view().subrange(0, i + 1);
                lemma_view_push(pre, self.filter_zen, self.tasks_view()[i as int]);
                assert(pre.push(self.tasks_view()[i as int]) =~= cur);
            }
            if !(self.filter_zen && self.tasks[i].complete) {
                count += 1;
            }
            i += 1;
        }
        proof {
            assert(self.tasks_view().subrange(0, self.tasks@.len() as int) =~= self.tasks_view());
        }
        count
    }

    /// The position in the collection that the `k`-th visible task
    /// occupies, if the view is that long.
    fn resolve(&self, k: usize) -> (r: Option<usize>)
        ensures
            match r {
                Some(j) => k < self.fview().len() && j == raw_index_of(
                    self.tasks_view(),
                    self.filter_zen,
                    k as int,
                ),
                None => k >= self.fview().len(),
            },
    {
        let ghost s = self.tasks_view();
        let ghost f = self.filter_zen;
        let mut count: usize = 0;
        let mut i: usize = 0;
        proof {
            reveal(Seq::filter);
            assert(s.subrange(0, 0) =~= Seq::<TaskV>::empty());
        }
        while i < self.tasks.len()
            invariant
                i <= s.len(),
                s == self.tasks_view(),
                f == self.filter_zen,
                count == view_of(s.subrange(0, i as int), f).len(),
                count <= k,
            decreases s.len() - i,
        {
            let visible = !(self.filter_zen && self.tasks[i].complete);
            proof {
                let pre = s.subrange(0, i as int);
                let cur = s.subrange(0, i + 1);
                lemma_view_push(pre, f, s[i as int]);
                assert(pre.push(s[i as int]) =~= cur);
            }
            if visible {
                if count == k {
                    proof {
                        assert(s.subrange(0, i as int) + s.subrange(i as int, s.len() as int)
                            =~= s);
                        lemma_view_concat(
                            s.subrange(0, i as int),
                            s.subrange(i as int, s.len() as int),
                            f,
                        );
                        let mid = s.subrange(i as int, s.len() as int);
                        assert(seq![mid[0]] + mid.drop_first() =~= mid);
                        lemma_view_concat(seq![mid[0]], mid.drop_first(), f);
                        lemma_view_singleton(mid[0], f);
                        assert(mid[0] == s[i as int]);
                        assert(view_of(s, f).len() > k);
                        lemma_raw_index_of(s, f, k as int);
                        lemma_raw_index_unique(
                            s,
                            f,
                            k as int,
                            i as int,
                            raw_index_of(s, f, k as int),
                        );
                    }
                    return Some(i);
                }
                count += 1;
            }
            i += 1;
        }
        proof {
            assert(s.subrange(0, s.len() as int) =~= s);
        }
        None
    }

    /// The `k`-th task of the filtered view, if the view is that long.
    pub fn get(&self, index: usize) -> (r: Option<Task>)
        ensures
            match r {
                Some(t) => index < self.fview().len() && t@ == self.fview()[index as int],
                None => index >= self.fview().len(),
            },
    {
        match self.resolve(index) {
            Some(j) => {
                proof {
                    lemma_raw_index_of(self.tasks_view(), self.filter_zen, index as int);
                }
                Some(self.tasks[j].clone())
            },
            None => None,
        }
    }

    /// A restartable walk over the filtered view.
    pub fn iter(&self) -> (it: DataIterator)
        ensures
            views_of(it.items@) == self.fview(),
            it.pos == 0,
    {
        let mut items: Vec<Task> = Vec::new();
        let mut i: usize = 0;
        proof {
            reveal(Seq::filter);
            assert(self.tasks_view().subrange(0, 0) =~= Seq::<TaskV>::empty());
            assert(views_of(items@) =~= Seq::<TaskV>::empty());
        }
        while i < self.tasks.len()
            invariant
                i <= self.tasks@.len(),
                views_of(items@) == view_of(
                    self.tasks_view().subrange(0, i as int),
                    self.filter_zen,
                ),
            decreases self.tasks@.len() - i,
        {
            proof {
                let pre = self.tasks_view().subrange(0, i as int);
                let cur = self.tasks_view().subrange(0, i + 1);
                lemma_view_push(pre, self.filter_zen, self.tasks_view()[i as int]);
                assert(pre.push(self.tasks_view()[i as int]) =~= cur);
            }
            if !(self.filter_zen && self.tasks[i].complete) {
                let ghost before = views_of(items@);
                items.push(self.tasks[i].clone());
                proof {
                    assert(views_of(items@) =~= before + seq![self.tasks_view()[i as int]]);
                }
            } else {
                proof {
                    assert(views_of(items@) + Seq::<TaskV>::empty() =~= views_of(items@));
                }
            }
            i += 1;
        }
        proof {
            assert(self.tasks_view().subrange(0, self.tasks@.len() as int) =~= self.tasks_view());
        }
        DataIterator { items, pos: 0 }
    }

    /// Flips the completion flag of the task the selection resolves to
    /// (through the active filter), then pulls the selection back into
    /// the possibly shorter view.
    pub fn toggle_task_status(&mut self)
        ensures
            toggle_complete_rel(*old(self), *final(self)),
    {
        let k = match self.index {
            Some(k) => k,
            None => {
                return ;
            },
        };
        let j = match self.resolve(k) {
            Some(j) => j,
            None => {
                return ;
            },
        };
        proof {
            lemma_raw_index_of(self.tasks_view(), self.filter_zen, k as int);
        }
        let mut t = self.tasks[j].clone();
        t.complete = !t.complete;
        let ghost before = self.tasks_view();
        self.tasks.set(j, t);
        proof {
            assert(self.tasks_view() =~= before.update(
                j as int,
                complete_toggled(before[j as int]),
            ));
        }
        let len = self.len();
        self.index = if len == 0 {
            None
        } else {
            Some(
                if k < len {
                    k
                } else {
                    len - 1
                },
            )
        };
    }

    /// Flips the star of the task the selection resolves to (through the
    /// active filter); the view keeps its length, so the selection
    /// stays.
    pub fn toggle_task_star(&mut self)
        ensures
            toggle_star_rel(*old(self), *final(self)),
    {
        let k = match self.index {
            Some(k) => k,
            None => {
                return ;
            },
        };
        let j = match self.resolve(k) {
            Some(j) => j,
            None => {
                return ;
            },
        };
        proof {
            lemma_raw_index_of(self.tasks_view(), self.filter_zen, k as int);
        }
        let mut t = self.tasks[j].clone();
        t.starred = !t.starred;
        let ghost before = self.tasks_view();
        self.tasks.set(j, t);
        proof {
            assert(self.tasks_view() =~= before.update(j as int, star_toggled(before[j as int])));
        }
    }

    /// Removes the task the selection resolves to (through the active
    /// filter), then pulls the selection back into the shorter view.
    pub fn remove_selected(&mut self)
        ensures
            remove_selected_rel(*old(self), *final(self)),
    {
        let k = match self.index {
            Some(k) => k,
            None => {
                return ;
            },
        };
        let j = match self.resolve(k) {
            Some(j) => j,
            None => {
                return ;
            },
        };
        proof {
            lemma_raw_index_of(self.tasks_view(), self.filter_zen, k as int);
        }
        let ghost before = self.tasks_view();
        self.tasks.remove(j);
        proof {
            assert(self.tasks_view() =~= before.remove(j as int));
        }
        let len = self.len();
        self.index = if len == 0 {
            None
        } else {
            Some(
                if k < len {
                    k
                } else {
                    len - 1
                },
            )
        };
    }

    /// Flips the Zen filter and clamps the selection into the new view:
    /// kept but pulled into range while tasks remain visible, set to the
    /// first task if it was absent, absent when the view became empty.
    pub fn toggle_filter_zen(&mut self)
        ensures
            toggle_filter_rel(*old(self), *final(self)),
    {
        self.filter_zen = !self.filter_zen;
        let len = self.len();
        self.index = if len == 0 {
            None
        } else {
            match self.index {
                Some(x) => Some(
                    if x < len {
                        x
                    } else {
                        len - 1
                    },
                ),
                None => Some(0),
            }
        };
    }
}

/// Toggling the Zen filter twice returns the filtered view to its
/// original content and length: the collection is untouched and the
/// filter is back to its first state.
pub proof fn lemma_zen_filter_toggle_twice(d1: Data, d2: Data, d3: Data)
    requires
        d2.tasks_view() == d1.tasks_view(),
        d2.filter_zen == !d1.filter_zen,
        d3.tasks_view() == d2.tasks_view(),
        d3.filter_zen == !d2.filter_zen,
    ensures
        d3.fview() == d1.fview(),
        d3.fview().len() == d1.fview().len(),
{
}

/// A walk over a snapshot of the filtered view.
pub struct DataIterator {
    pub items: Vec<Task>,
    pub pos: usize,
}

impl DataIterator {
    /// The next task of the snapshot, until it is exhausted.
    pub fn next(&mut self) -> (r: Option<Task>)
        ensures
            final(self).items@ == old(self).items@,
            match r {
                Some(t) => (old(self).pos as nat) < old(self).items@.len() && t@ == views_of(
                    old(self).items@,
                )[old(self).pos as int] && final(self).pos == old(self).pos + 1,
                None => (old(self).pos as nat) >= old(self).items@.len() && final(self).pos
                    == old(self).pos,
            },
    {
        if self.pos < self.items.len() {
            let t = self.items[self.pos].clone();
            self.pos += 1;
            Some(t)
        } else {
            None
        }
    }
}

/// Which pane holds the focus.
#[derive(Clone, Copy, Debug, PartialEq, Eq, Structural)]
pub enum CurrentPane {
    Left,
    Right,
}

/// The side effect a tick asks the surrounding terminal layer to
/// perform: nothing, persist the tasks, or run the external editor on
/// the selected task.
#[derive(Clone, Copy, Debug, PartialEq, Eq, Structural)]
pub enum AppEffect {
    Nothing,
    Save,
    Edit,
}

/// Keys the controller handles itself before the focused pane sees
/// them.
pub open spec fn is_global_key(key: Key) -> bool {
    key == Key::Char('q') || key == Key::Char('h') || key == Key::Char('l') || key == Key::Char(
        'f',
    ) || key == Key::Char('w') || key == Key::Char('e') || key == Key::Char('p')
}

/// What appending a fresh default task does: one placeholder task, with
/// a deadline of some representable moment, joins the end of the
/// collection.
pub open spec fn add_default_rel(pre: Data, post: Data) -> bool {
    &&& post.filter_zen == pre.filter_zen
    &&& post.index == pre.index
    &&& post.tasks_view().len() == pre.tasks_view().len() + 1
    &&& post.tasks_view().drop_last() == pre.tasks_view()
    &&& is_default_spec(post.tasks_view().last())
    &&& post.tasks_view().last().wf()
    &&& post.tasks_view().last().time is Some
}

/// What replacing the selected task does: the task the selection
/// resolves to (through the active filter) becomes `t`; without a
/// usable selection nothing changes.
pub open spec fn replace_selected_rel(pre: Data, post: Data, t: TaskV) -> bool {
    &&& post.filter_zen == pre.filter_zen
    &&& post.index == pre.index
    &&& match pre.index {
        Some(k) => if (k as nat) < pre.fview().len() {
            post.tasks_view() == pre.tasks_view().update(
                raw_index_of(pre.tasks_view(), pre.filter_zen, k as int),
                t,
            )
        } else {
            post.tasks_view() == pre.tasks_view()
        },
        None => post.tasks_view() == pre.tasks_view(),
    }
}

proof fn lemma_wf_after_update(s: Seq<TaskV>, j: int, t: TaskV)
    requires
        tasks_wf_seq(s),
        0 <= j < s.len(),
        t.wf(),
    ensures
        tasks_wf_seq(s.update(j, t)),
{
    let u = s.update(j, t);
    assert forall|k: int| 0 <= k < u.len() implies (#[trigger] u[k]).wf() by {
        if k != j {
            assert(u[k] == s[k]);
        }
    }
}

proof fn lemma_wf_after_remove(s: Seq<TaskV>, j: int)
    requires
        tasks_wf_seq(s),
        0 <= j < s.len(),
    ensures
        tasks_wf_seq(s.remove(j)),
{
    let u = s.remove(j);
    assert forall|k: int| 0 <= k < u.len() implies (#[trigger] u[k]).wf() by {
        if k < j {
            assert(u[k] == s[k]);
        } else {
            assert(u[k] == s[k + 1]);
        }
    }
}

/// A data transition of one tick keeps every deadline representable.
proof fn lemma_wf_after_data_rel(pre: Data, post: Data)
    requires
        tasks_wf_seq(pre.tasks_view()),
        post.tasks_view() == pre.tasks_view() || toggle_complete_rel(pre, post) || toggle_star_rel(
            pre,
            post,
        ) || remove_selected_rel(pre, post),
    ensures
        tasks_wf_seq(post.tasks_view()),
{
    if post.tasks_view() == pre.tasks_view() {
    } else {
        match pre.index {
            Some(k) => {
                if (k as nat) < pre.fview().len() {
                    let j = raw_index_of(pre.tasks_view(), pre.filter_zen, k as int);
                    lemma_raw_index_of(pre.tasks_view(), pre.filter_zen, k as int);
                    if toggle_complete_rel(pre, post) && post.tasks_view() == pre.tasks_view()
                        .update(j, complete_toggled(pre.tasks_view()[j])) {
                        lemma_wf_after_update(
                            pre.tasks_view(),
                            j,
                            complete_toggled(pre.tasks_view()[j]),
                        );
                    }
                    if toggle_star_rel(pre, post) && post.tasks_view() == pre.tasks_view().update(
                        j,
                        star_toggled(pre.tasks_view()[j]),
                    ) {
                        lemma_wf_after_update(pre.tasks_view(), j, star_toggled(pre.tasks_view()[j]));
                    }
                    if remove_selected_rel(pre, post) && post.tasks_view() == pre.tasks_view()
                        .remove(j) {
                        lemma_wf_after_remove(pre.tasks_view(), j);
                    }
                }
            },
            None => {},
        }
    }
}

/// The interactive application: the task data, the two panes, the focus,
/// at most one open popup, and the terminate flag.  The event loop, the
/// drawing and the persistence around it live with the terminal layer;
/// every decision stands here.
pub struct App {
    pub data: Data,
    pub current_pane: CurrentPane,
    pub left_pane: TasksPane,
    pub right_pane: DescriptionPane,
    pub current_popup: Option<Popup>,
    pub exit: bool,
}

impl App {
    /// A fresh application over loaded tasks: left pane focused, no
    /// popup, first task selected when there is one.
    pub fn new(tasks: Vec<Task>) -> (r: Self)
        requires
            tasks_wf_seq(views_of(tasks@)),
        ensures
            r.data.tasks@ == tasks@,
            !r.data.filter_zen,
            r.data.index == (if tasks@.len() == 0 {
                None::<usize>
            } else {
                Some(0usize)
            }),
            r.data.tasks_wf(),
            r.current_pane == CurrentPane::Left,
            !r.left_pane.show_numbers,
            r.right_pane.current_entry is None,
            r.current_popup is None,
            !r.exit,
    {
        App {
            data: Data::new(tasks),
            current_pane: CurrentPane::Left,
            left_pane: TasksPane::new(),
            right_pane: DescriptionPane::default(),
            current_popup: None,
            exit: false,
        }
    }

    /// Appends a fresh default task to the collection.
    fn add_default(&mut self)
        ensures
            add_default_rel(old(self).data, final(self).data),
            final(self).current_pane == old(self).current_pane,
            final(self).left_pane == old(self).left_pane,
            final(self).right_pane == old(self).right_pane,
            final(self).current_popup == old(self).current_popup,
            final(self).exit == old(self).exit,
    {
        let ghost before = self.data.tasks_view();
        self.data.tasks.push(Task::default());
        proof {
            assert(self.data.tasks_view().drop_last() =~= before);
        }
    }

    /// The task the selection currently resolves to, as the template for
    /// an external edit.
    pub fn selected_task(&self) -> (r: Option<Task>)
        ensures
            match r {
                Some(t) => match self.data.index {
                    Some(k) => (k as nat) < self.data.fview().len() && t@ == self.data.fview()[
                        k as int
                    ],
                    None => false,
                },
                None => match self.data.index {
                    Some(k) => (k as nat) >= self.data.fview().len(),
                    None => true,
                },
            },
    {
        match self.data.index {
            Some(k) => self.data.get(k),
            None => None,
        }
    }

    /// Replaces the task the selection resolves to with an edited one;
    /// with no usable selection the collection is untouched.
    pub fn replace_selected(&mut self, t: Task)
        requires
            t@.wf(),
            old(self).data.tasks_wf(),
        ensures
            replace_selected_rel(old(self).data, final(self).data, t@),
            final(self).data.tasks_wf(),
            final(self).current_pane == old(self).current_pane,
            final(self).left_pane == old(self).left_pane,
            final(self).right_pane == old(self).right_pane,
            final(self).current_popup == old(self).current_popup,
            final(self).exit == old(self).exit,
    {
        let k = match self.data.index {
            Some(k) => k,
            None => {
                return ;
            },
        };
        let len = self.data.len();
        if k >= len {
            return ;
        }
        let ghost s = self.data.tasks_view();
        let ghost f = self.data.filter_zen;
        proof {
            lemma_raw_index_of(s, f, k as int);
        }
        let j = match self.data.resolve(k) {
            Some(j) => j,
            None => {
                return ;
            },
        };
        self.data.tasks.set(j, t);
        proof {
            assert(self.data.tasks_view() =~= s.update(j as int, t@));
            lemma_wf_after_update(s, j as int, t@);
        }
    }

    /// The exit sequence behind the quit key: terminate at once while
    /// nothing is unsaved, else raise the save-confirmation popup.
    fn exit(&mut self, dirty: bool)
        requires
            old(self).current_popup is None,
        ensures
            final(self).data == old(self).data,
            final(self).current_pane == old(self).current_pane,
            final(self).left_pane == old(self).left_pane,
            final(self).right_pane == old(self).right_pane,
            if dirty {
                final(self).exit == old(self).exit && final(self).current_popup == Some(
                    Popup::ConfirmExitSave,
                )
            } else {
                final(self).exit && final(self).current_popup is None
            },
    {
        if !dirty {
            self.exit = true;
        } else {
            self.current_popup = Some(Popup::ConfirmExitSave);
        }
    }

    /// Routes one key event.  A popup, while open, captures the key
    /// exclusively; otherwise the global keys run first and anything
    /// else goes to the focused pane, whose popup request becomes
    /// current.  `dirty` is the storage dirty-check for this tick; with
    /// the quit key and a clean store the controller terminates with
    /// zero prompts, with an unsaved store it always raises the
    /// save-confirmation popup first.
    pub fn handle_key_event(&mut self, key: Key, dirty: bool) -> (r: AppEffect)
        requires
            old(self).data.tasks_wf(),
        ensures
            final(self).data.tasks_wf(),
            match old(self).current_popup {
                Some(p) => {
                    let a = popup_action_spec(p, key);
                    &&& popup_data_rel(p, key, old(self).data, final(self).data)
                    &&& final(self).current_pane == old(self).current_pane
                    &&& final(self).left_pane == old(self).left_pane
                    &&& final(self).right_pane == old(self).right_pane
                    &&& (a == PopupAction::Stay ==> final(self).current_popup == old(self).current_popup && final(self).exit == old(self).exit && r
                        == AppEffect::Nothing)
                    &&& (a == PopupAction::Close ==> final(self).current_popup is None && final(self).exit == old(self).exit && r == AppEffect::Nothing)
                    &&& (a == PopupAction::Exit ==> final(self).current_popup is None && final(self).exit && r == AppEffect::Nothing)
                    &&& (a == PopupAction::SaveAndExit ==> final(self).current_popup is None
                        && final(self).exit && r == AppEffect::Save)
                },
                None => {
                    &&& (key == Key::Char('q') ==> r == AppEffect::Nothing && data_unchanged(
                        old(self).data,
                        final(self).data,
                    ) && final(self).current_pane == old(self).current_pane && final(self).left_pane == old(self).left_pane && final(self).right_pane == old(self).right_pane && (if dirty {
                        final(self).exit == old(self).exit && final(self).current_popup == Some(
                            Popup::ConfirmExitSave,
                        )
                    } else {
                        final(self).exit && final(self).current_popup is None
                    }))
                    &&& (key == Key::Char('h') ==> r == AppEffect::Nothing && data_unchanged(
                        old(self).data,
                        final(self).data,
                    ) && final(self).current_pane == CurrentPane::Left && final(self).left_pane
                        == old(self).left_pane && final(self).right_pane.current_entry is None
                        && final(self).current_popup is None && final(self).exit == old(self).exit)
                    &&& (key == Key::Char('l') ==> r == AppEffect::Nothing && data_unchanged(
                        old(self).data,
                        final(self).data,
                    ) && final(self).current_pane == CurrentPane::Right && final(self).left_pane
                        == old(self).left_pane && final(self).right_pane.current_entry == Some(
                        DescriptionEntry::Header,
                    ) && final(self).current_popup is None && final(self).exit == old(self).exit)
                    &&& (key == Key::Char('f') ==> r == AppEffect::Nothing && toggle_filter_rel(
                        old(self).data,
                        final(self).data,
                    ) && final(self).current_pane == old(self).current_pane && final(self).left_pane == old(self).left_pane && final(self).right_pane == old(self).right_pane && final(self).current_popup is None && final(self).exit == old(self).exit)
                    &&& (key == Key::Char('w') ==> r == AppEffect::Save && data_unchanged(
                        old(self).data,
                        final(self).data,
                    ) && final(self).current_pane == old(self).current_pane && final(self).left_pane == old(self).left_pane && final(self).right_pane == old(self).right_pane && final(self).current_popup is None && final(self).exit == old(self).exit)
                    &&& (key == Key::Char('e') ==> r == AppEffect::Edit && data_unchanged(
                        old(self).data,
                        final(self).data,
                    ) && final(self).current_pane == old(self).current_pane && final(self).left_pane == old(self).left_pane && final(self).right_pane == old(self).right_pane && final(self).current_popup is None && final(self).exit == old(self).exit)
                    &&& (key == Key::Char('p') ==> r == AppEffect::Nothing && add_default_rel(
                        old(self).data,
                        final(self).data,
                    ) && final(self).current_pane == old(self).current_pane && final(self).left_pane == old(self).left_pane && final(self).right_pane == old(self).right_pane && final(self).current_popup is None && final(self).exit == old(self).exit)
                    &&& (!is_global_key(key) ==> r == AppEffect::Nothing && final(self).exit
                        == old(self).exit && final(self).current_pane == old(self).current_pane
                        && (match old(self).current_pane {
                        CurrentPane::Left => tasks_pane_key_rel(
                            old(self).left_pane,
                            final(self).left_pane,
                            old(self).data,
                            final(self).data,
                            key,
                            final(self).current_popup,
                        ) && final(self).right_pane == old(self).right_pane,
                        CurrentPane::Right => desc_pane_key_rel(
                            old(self).right_pane,
                            final(self).right_pane,
                            key,
                        ) && data_unchanged(old(self).data, final(self).data) && final(self).current_popup is None && final(self).left_pane == old(self).left_pane,
                    }))
                },
            },
    {
        if self.current_popup.is_some() {
            let ghost pre = self.data;
            let a = match &self.current_popup {
                Some(p) => p.handle_key_event(key, &mut self.data),
                None => PopupAction::Stay,
            };
            proof {
                lemma_wf_after_data_rel(pre, self.data);
            }
            return match a {
                PopupAction::Stay => AppEffect::Nothing,
                PopupAction::Close => {
                    self.current_popup = None;
                    AppEffect::Nothing
                },
                PopupAction::Exit => {
                    self.current_popup = None;
                    self.exit = true;
                    AppEffect::Nothing
                },
                PopupAction::SaveAndExit => {
                    self.current_popup = None;
                    self.exit = true;
                    AppEffect::Save
                },
            };
        }
        match key {
            Key::Char(c) => {
                if c == 'q' {
                    self.exit(dirty);
                    AppEffect::Nothing
                } else if c == 'h' {
                    self.right_pane.leave();
                    self.current_pane = CurrentPane::Left;
                    AppEffect::Nothing
                } else if c == 'l' {
                    self.right_pane.enter();
                    self.current_pane = CurrentPane::Right;
                    AppEffect::Nothing
                } else if c == 'f' {
                    self.data.toggle_filter_zen();
                    AppEffect::Nothing
                } else if c == 'w' {
                    AppEffect::Save
                } else if c == 'e' {
                    AppEffect::Edit
                } else if c == 'p' {
                    self.add_default();
                    proof {
                        let pre = old(self).data.tasks_view();
                        let post = self.data.tasks_view();
                        assert forall|k: int| 0 <= k < post.len() implies (
                        #[trigger] post[k]).wf() by {
                            if k < pre.len() {
                                assert(post[k] == post.drop_last()[k]);
                            } else {
                                assert(post[k] == post.last());
                            }
                        }
                    }
                    AppEffect::Nothing
                } else {
                    self.forward_key(key)
                }
            },
            _ => self.forward_key(key),
        }
    }

    /// Hands a non-global key to the focused pane and adopts its popup
    /// request.
    fn forward_key(&mut self, key: Key) -> (r: AppEffect)
        requires
            old(self).data.tasks_wf(),
            old(self).current_popup is None,
        ensures
            final(self).data.tasks_wf(),
            r == AppEffect::Nothing,
            final(self).exit == old(self).exit,
            final(self).current_pane == old(self).current_pane,
            match old(self).current_pane {
                CurrentPane::Left => tasks_pane_key_rel(
                    old(self).left_pane,
                    final(self).left_pane,
                    old(self).data,
                    final(self).data,
                    key,
                    final(self).current_popup,
                ) && final(self).right_pane == old(self).right_pane,
                CurrentPane::Right => desc_pane_key_rel(
                    old(self).right_pane,
                    final(self).right_pane,
                    key,
                ) && data_unchanged(old(self).data, final(self).data) && final(self).current_popup is None && final(self).left_pane == old(self).left_pane,
            },
    {
        let ghost pre = self.data;
        match self.current_pane {
            CurrentPane::Left => {
                let pp = self.left_pane.handle_key_event(key, &mut self.data);
                self.current_popup = pp;
            },
            CurrentPane::Right => {
                let pp = self.right_pane.handle_key_event(key, &mut self.data);
                self.current_popup = pp;
            },
        }
        proof {
            lemma_wf_after_data_rel(pre, self.data);
        }
        AppEffect::Nothing
    }
}

} // verus!
