//! The navigation state machine: search string, filtered-view cursor, and
//! the interpreter for keyboard and pointer events.
//!
//! Events arrive one at a time, in order, and each is interpreted against the
//! current filtered view. Character input and backspace edit the search and
//! reset the cursor; next and previous move the cursor, clamped to the view;
//! confirm and click toggle an achievement and hand back the remote call the
//! caller owes.

use vstd::prelude::*;

use crate::seqs::lemma_filter_elements;
use crate::store::{toggle_action, toggled, AchievementStore, SyncAction};
use crate::text::{pop_char, push_str};

verus! {

/// One input event for the navigation layer. Pointer rows (`Hover`, `Click`)
/// carry the row's index within the filtered view; the caller sends `Hover`
/// only when it saw real pointer motion or scrolling, so a resting pointer
/// does not fight the keyboard.
pub enum NavEvent {
    /// Characters typed into the search.
    Text(String),
    /// Remove the last search character.
    Backspace,
    /// Move the cursor down (arrow down, or plain tab).
    Next,
    /// Move the cursor up (arrow up, or shift+tab).
    Previous,
    /// Toggle the achievement under the cursor (enter).
    Confirm,
    /// The pointer moved over a row: the cursor follows it.
    Hover(usize),
    /// A click on a row toggles that row's achievement, wherever the cursor
    /// is.
    Click(usize),
}

/// Cursor after a "next" against a view of length `len`: one step down,
/// clamped to the last valid index, and pinned to `0` on an empty view.
pub open spec fn next_cursor(c: int, len: int) -> int {
    if len == 0 {
        0
    } else if c + 1 < len {
        c + 1
    } else {
        len - 1
    }
}

/// Cursor after a "previous": one step up, saturating at `0`.
pub open spec fn prev_cursor(c: int) -> int {
    if c == 0 {
        0
    } else {
        c - 1
    }
}

/// Cursor re-clamped against a view of length `len`.
pub open spec fn clamp_cursor(c: int, len: int) -> int {
    if len == 0 {
        0
    } else if c < len {
        c
    } else {
        len - 1
    }
}

/// The cursor is a valid index of a view of length `len`, or `0` when the
/// view is empty.
pub open spec fn cursor_ok(c: int, len: int) -> bool {
    if len == 0 {
        c == 0
    } else {
        0 <= c < len
    }
}

/// Search string, cursor into the filtered view, and the only-incomplete
/// switch.
pub struct NavigationState {
    pub search: String,
    pub cursor: usize,
    pub only_incomplete: bool,
}

impl NavigationState {
    /// The initial values: empty search, cursor at the top, filter off.
    pub open spec fn is_reset(self) -> bool {
        &&& self.search@.len() == 0
        &&& self.cursor == 0
        &&& !self.only_incomplete
    }

    /// Length of the filtered view this state currently induces on `store`.
    pub open spec fn view_len(self, store: AchievementStore) -> int {
        store.spec_filtered(self.search@, self.only_incomplete).len() as int
    }

    pub fn new() -> (nav: NavigationState)
        ensures
            nav.is_reset(),
    {
        NavigationState { search: String::new(), cursor: 0, only_incomplete: false }
    }

    /// Back to the initial values; done every time the overlay becomes
    /// visible.
    pub fn reset(&mut self)
        ensures
            final(self).is_reset(),
    {
        self.search = String::new();
        self.cursor = 0;
        self.only_incomplete = false;
    }

    /// Switches the only-incomplete filter and re-clamps the cursor against
    /// the view the new setting induces, so a shrunken view cannot leave the
    /// cursor dangling.
    pub fn set_only_incomplete(&mut self, store: &AchievementStore, value: bool)
        requires
            store.wf(),
        ensures
            final(self).only_incomplete == value,
            final(self).search == old(self).search,
            final(self).cursor == clamp_cursor(
                old(self).cursor as int,
                store.spec_filtered(old(self).search@, value).len() as int,
            ),
    {
        self.only_incomplete = value;
        let fl = store.filtered_ids(&self.search, value);
        if fl.len() == 0 {
            self.cursor = 0;
        } else if self.cursor >= fl.len() {
            self.cursor = fl.len() - 1;
        }
    }

    /// Interprets one event against the current filtered view. Editing the
    /// search resets the cursor; motion clamps it; confirm and click toggle
    /// the chosen achievement in `store` and return the remote call owed,
    /// and are a no-op when they point outside the view.
    pub fn handle_event(&mut self, store: &mut AchievementStore, ev: NavEvent) -> (act: Option<
        SyncAction,
    >)
        requires
            old(store).wf(),
        ensures
            final(store).wf(),
            match ev {
                NavEvent::Text(t) => {
                    &&& final(self).search@ == old(self).search@ + t@
                    &&& final(self).cursor == 0
                    &&& final(self).only_incomplete == old(self).only_incomplete
                    &&& *final(store) == *old(store)
                    &&& act is None
                },
                NavEvent::Backspace => {
                    &&& final(self).search@ == (if old(self).search@.len() == 0 {
                        old(self).search@
                    } else {
                        old(self).search@.drop_last()
                    })
                    &&& final(self).cursor == 0
                    &&& final(self).only_incomplete == old(self).only_incomplete
                    &&& *final(store) == *old(store)
                    &&& act is None
                },
                NavEvent::Next => {
                    &&& final(self).cursor == next_cursor(
                        old(self).cursor as int,
                        old(self).view_len(*old(store)),
                    )
                    &&& final(self).search == old(self).search
                    &&& final(self).only_incomplete == old(self).only_incomplete
                    &&& *final(store) == *old(store)
                    &&& act is None
                },
                NavEvent::Previous => {
                    &&& final(self).cursor == prev_cursor(old(self).cursor as int)
                    &&& final(self).search == old(self).search
                    &&& final(self).only_incomplete == old(self).only_incomplete
                    &&& *final(store) == *old(store)
                    &&& act is None
                },
                NavEvent::Confirm => {
                    let fl = old(store).spec_filtered(
                        old(self).search@,
                        old(self).only_incomplete,
                    );
                    if (old(self).cursor as int) < fl.len() {
                        &&& *final(self) == *old(self)
                        &&& act == Some(toggle_action(*old(store), fl[old(self).cursor as int]))
                        &&& toggled(
                            *old(store),
                            *final(store),
                            fl[old(self).cursor as int],
                            toggle_action(*old(store), fl[old(self).cursor as int]),
                        )
                    } else {
                        &&& *final(self) == *old(self)
                        &&& *final(store) == *old(store)
                        &&& act is None
                    }
                },
                NavEvent::Hover(i) => {
                    &&& final(self).cursor == (if (i as int) < old(self).view_len(*old(store)) {
                        i as int
                    } else {
                        old(self).cursor as int
                    })
                    &&& final(self).search == old(self).search
                    &&& final(self).only_incomplete == old(self).only_incomplete
                    &&& *final(store) == *old(store)
                    &&& act is None
                },
                NavEvent::Click(i) => {
                    let fl = old(store).spec_filtered(
                        old(self).search@,
                        old(self).only_incomplete,
                    );
                    if (i as int) < fl.len() {
                        &&& *final(self) == *old(self)
                        &&& act == Some(toggle_action(*old(store), fl[i as int]))
                        &&& toggled(
                            *old(store),
                            *final(store),
                            fl[i as int],
                            toggle_action(*old(store), fl[i as int]),
                        )
                    } else {
                        &&& *final(self) == *old(self)
                        &&& *final(store) == *old(store)
                        &&& act is None
                    }
                },
            },
    {
        match ev {
            NavEvent::Text(t) => {
                push_str(&mut self.search, t.as_str());
                self.cursor = 0;
                None
            },
            NavEvent::Backspace => {
                let _last = pop_char(&mut self.search);
                self.cursor = 0;
                None
            },
            NavEvent::Next => {
                let fl = store.filtered_ids(&self.search, self.only_incomplete);
                if fl.len() == 0 {
                    self.cursor = 0;
                } else if self.cursor < fl.len() - 1 {
                    self.cursor = self.cursor + 1;
                } else {
                    self.cursor = fl.len() - 1;
                }
                None
            },
            NavEvent::Previous => {
                if self.cursor > 0 {
                    self.cursor = self.cursor - 1;
                }
                None
            },
            NavEvent::Confirm => {
                let fl = store.filtered_ids(&self.search, self.only_incomplete);
                if self.cursor < fl.len() {
                    let id = fl[self.cursor];
                    proof {
                        lemma_filter_elements(
                            store.ids@,
                            store.filter_pred(self.search@, self.only_incomplete),
                        );
                        let w = choose|w: int| 0 <= w < store.ids@.len() && store.ids@[w] == id;
                        assert(store.index@.contains_key(store.ids@[w]));
                    }
                    let a = store.toggle(id);
                    Some(a)
                } else {
                    None
                }
            },
            NavEvent::Hover(i) => {
                let fl = store.filtered_ids(&self.search, self.only_incomplete);
                if i < fl.len() {
                    self.cursor = i;
                }
                None
            },
            NavEvent::Click(i) => {
                let fl = store.filtered_ids(&self.search, self.only_incomplete);
                if i < fl.len() {
                    let id = fl[i];
                    proof {
                        lemma_filter_elements(
                            store.ids@,
                            store.filter_pred(self.search@, self.only_incomplete),
                        );
                        let w = choose|w: int| 0 <= w < store.ids@.len() && store.ids@[w] == id;
                        assert(store.index@.contains_key(store.ids@[w]));
                    }
                    let a = store.toggle(id);
                    Some(a)
                } else {
                    None
                }
            },
        }
    }
}

/// The events that only move the cursor.
pub open spec fn is_motion(ev: NavEvent) -> bool {
    ev is Next || ev is Previous
}

/// The cursor after one motion event against a view of length `len`.
pub open spec fn motion_step(c: int, len: int, ev: NavEvent) -> int {
    if ev is Next {
        next_cursor(c, len)
    } else if ev is Previous {
        prev_cursor(c)
    } else {
        c
    }
}

/// The cursor after a whole sequence of motion events, applied in order.
pub open spec fn motion_fold(c: int, len: int, evs: Seq<NavEvent>) -> int
    decreases evs.len(),
{
    if evs.len() == 0 {
        c
    } else {
        motion_fold(motion_step(c, len, evs[0]), len, evs.drop_first())
    }
}

/// Cursor safety law: starting from any valid cursor, any sequence of
/// next/previous events leaves the cursor inside `[0, len - 1]`, or at `0`
/// when the view is empty.
pub proof fn lemma_cursor_stays_in_bounds(c: int, len: int, evs: Seq<NavEvent>)
    requires
        cursor_ok(c, len),
        forall|i: int| 0 <= i < evs.len() ==> is_motion(#[trigger] evs[i]),
    ensures
        cursor_ok(motion_fold(c, len, evs), len),
    decreases evs.len(),
{
    if evs.len() > 0 {
        assert(forall|i: int|
            0 <= i < evs.drop_first().len() ==> is_motion(#[trigger] evs.drop_first()[i]));
        lemma_cursor_stays_in_bounds(motion_step(c, len, evs[0]), len, evs.drop_first());
    }
}

} // verus!
