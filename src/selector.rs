//! The pane-status selector: a cursor over the fixed status options of one
//! pane, committed to the store as a single pane upsert or abandoned.

use vstd::prelude::*;
use crate::key::{key_of, session_key};
use crate::rows::record_at;
use crate::status::{token_of, AgentStatus};
use crate::store::{pane_status, upsert_pane, upsert_pane_spec, Store};
use crate::entries::find_key;

verus! {

/// The status of option `i`, in the order the selector offers them.
pub open spec fn option_status(i: int) -> AgentStatus {
    if i == 0 {
        AgentStatus::Working
    } else if i == 1 {
        AgentStatus::Waiting
    } else if i == 2 {
        AgentStatus::Idle
    } else if i == 3 {
        AgentStatus::Done
    } else {
        AgentStatus::Unset
    }
}

/// The number of options.
pub const OPTION_COUNT: usize = 5;

/// `v` holds each option's label and status, in order.
pub open spec fn options_fit(v: Seq<(String, Option<AgentStatus>)>) -> bool {
    &&& v.len() == OPTION_COUNT
    &&& forall|i: int| 0 <= i < v.len() ==> (#[trigger] v[i]).1 == Some(option_status(i)) && v[i].0@ == token_of(option_status(i))
}

/// The options, each with its label.
pub fn pane_status_options() -> (r: Vec<(String, Option<AgentStatus>)>)
    ensures
        options_fit(r@),
{
    let mut r: Vec<(String, Option<AgentStatus>)> = Vec::new();
    r.push((AgentStatus::Working.token(), Some(AgentStatus::Working)));
    r.push((AgentStatus::Waiting.token(), Some(AgentStatus::Waiting)));
    r.push((AgentStatus::Idle.token(), Some(AgentStatus::Idle)));
    r.push((AgentStatus::Done.token(), Some(AgentStatus::Done)));
    r.push((AgentStatus::Unset.token(), Some(AgentStatus::Unset)));
    r
}

/// The status recorded for pane `pane_id` in the record under `key`.
pub fn pane_status_at(contexts: &Store, key: &String, pane_id: &str) -> (r: Option<AgentStatus>)
    requires
        contexts.wf(),
    ensures
        r == match record_at(contexts@, key@) {
            Some(c) => pane_status(c.panes, pane_id@),
            None => None,
        },
{
    match contexts.get(key) {
        Some(c) => {
            let id = String::from_str(pane_id);
            match find_key(&c.panes, &id) {
                Some(j) => {
                    proof {
                        crate::entries::lemma_entries_map_index(c.panes@, j as int);
                    }
                    c.panes[j].1.status
                },
                None => None,
            }
        },
        None => None,
    }
}

/// The status recorded for pane `pane_id` of the session named
/// `session_name`.
pub fn current_pane_status(contexts: &Store, session_name: &str, pane_id: &str) -> (r: Option<AgentStatus>)
    requires
        contexts.wf(),
    ensures
        r == match record_at(contexts@, key_of(session_name@)) {
            Some(c) => pane_status(c.panes, pane_id@),
            None => None,
        },
{
    let key = session_key(session_name);
    pane_status_at(contexts, &key, pane_id)
}

/// The option a selector starts on: the one for `current`, else the first.
pub open spec fn initial_option(current: Option<AgentStatus>) -> int {
    if current is Some && exists|i: int| 0 <= i < OPTION_COUNT && option_status(i) == current->0 {
        choose|i: int| 0 <= i < OPTION_COUNT && option_status(i) == current->0
    } else {
        0
    }
}

/// An input event of the selector.
pub enum SelectorEvent {
    Left,
    Right,
    Confirm,
    Cancel,
}

/// What the caller must do after a selector event.
pub enum SelectorAction {
    /// Nothing: draw and wait for the next event.
    Continue,
    /// Record this status for the pane (through `commit`), then stop.
    Commit(Option<AgentStatus>),
    /// Stop without touching the store.
    Exit,
}

/// The selector's state for one pane.
pub struct PaneSelector {
    pub session_name: String,
    pub pane_id: String,
    pub options: Vec<(String, Option<AgentStatus>)>,
    pub selected: usize,
}

impl PaneSelector {
    /// The options are the fixed ones and the cursor is on one of them.
    pub open spec fn wf(&self) -> bool {
        options_fit(self.options@) && self.selected < OPTION_COUNT
    }

    /// A selector for the pane, on the option of its current status.
    pub fn new(session_name: String, pane_id: String, current: Option<AgentStatus>) -> (r: PaneSelector)
        ensures
            r.wf(),
            r.session_name == session_name,
            r.pane_id == pane_id,
            r.selected as int == initial_option(current),
    {
        let options = pane_status_options();
        let mut selected: usize = 0;
        let mut i: usize = 0;
        let mut found = false;
        while i < options.len()
            invariant_except_break
                !found,
                selected == 0,
            invariant
                options_fit(options@),
                i <= OPTION_COUNT,
                forall|j: int| 0 <= j < i ==> Some(option_status(j)) != current,
            ensures
                found ==> selected < OPTION_COUNT && Some(option_status(selected as int)) == current,
                !found ==> forall|j: int| 0 <= j < OPTION_COUNT ==> Some(option_status(j)) != current,
                !found ==> selected == 0,
                options_fit(options@),
            decreases OPTION_COUNT - i,
        {
            if options[i].1 == current {
                selected = i;
                found = true;
                break;
            }
            i = i + 1;
        }
        proof {
            if found {
                let c = choose|c: int| 0 <= c < OPTION_COUNT && option_status(c) == current->0;
                assert(c == selected as int);
            }
        }
        PaneSelector { session_name, pane_id, options, selected }
    }

    /// Handles one event: left and right move the cursor with wraparound.
    pub fn handle_event(&mut self, event: SelectorEvent) -> (r: SelectorAction)
        requires
            old(self).wf(),
        ensures
            final(self).wf(),
            final(self).session_name == old(self).session_name,
            final(self).pane_id == old(self).pane_id,
            event is Left ==> r is Continue && final(self).selected == (if old(self).selected == 0 {
                (OPTION_COUNT - 1) as usize
            } else {
                (old(self).selected - 1) as usize
            }),
            event is Right ==> r is Continue && final(self).selected as int == (old(self).selected + 1) % (OPTION_COUNT as int),
            event is Confirm ==> final(self).selected == old(self).selected
                && r == SelectorAction::Commit(Some(option_status(old(self).selected as int))),
            event is Cancel ==> r is Exit && final(self).selected == old(self).selected,
    {
        match event {
            SelectorEvent::Left => {
                if self.selected == 0 {
                    self.selected = self.options.len() - 1;
                } else {
                    self.selected = self.selected - 1;
                }
                SelectorAction::Continue
            },
            SelectorEvent::Right => {
                self.selected = (self.selected + 1) % self.options.len();
                SelectorAction::Continue
            },
            SelectorEvent::Confirm => SelectorAction::Commit(self.options[self.selected].1),
            SelectorEvent::Cancel => SelectorAction::Exit,
        }
    }

    /// Records `status` for this selector's pane.
    pub fn commit(&self, contexts: &mut Store, status: Option<AgentStatus>)
        requires
            old(contexts).wf(),
        ensures
            final(contexts).wf(),
            final(contexts)@ == upsert_pane_spec(
                old(contexts)@,
                key_of(self.session_name@),
                self.session_name@,
                self.pane_id@,
                status,
            ),
    {
        upsert_pane(contexts, self.session_name.as_str(), self.pane_id.as_str(), status);
    }
}

} // verus!
