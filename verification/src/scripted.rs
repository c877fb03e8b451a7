//! A control, a popup and a runner that answer from a script.
//!
//! They stand in for the focused control, the autocomplete popup and what runs
//! a verb where no editor runs: each keeps the calls made on it, so that what
//! was done can be read back.

use vstd::prelude::*;
use crate::outcome::Outcome;
use crate::ports::{
    CompletionOps, HierarchyAction, NavDirection, PanelCall, PanelLog, PanelOps, PopupCall,
    PopupLog, PopupState, WindowNavAction, WindowNavDirection, WindowNavResult,
};
use crate::resolve::{Candidate, CandidateView, RunLog, Runner};

verus! {

/// A control with a number of steps left in it.
#[derive(Debug, Default)]
pub struct ScriptedPanel {
    /// How many steps succeed before one is refused.
    pub steps_available: u32,
    /// Whether there is something to expand or to collapse.
    pub hierarchy_ok: bool,
    /// Whether there is a panel to move focus to.
    pub focus_found: bool,
    /// The calls made, with their answers.
    pub log: Vec<PanelCall>,
}

impl PanelOps for ScriptedPanel {
    open spec fn calls(&self) -> PanelLog {
        self.log@
    }

    fn nav_step(&mut self, direction: NavDirection) -> (r: bool)
        ensures
            r == (old(self).steps_available > 0),
            final(self).steps_available == (if r {
                (old(self).steps_available - 1) as u32
            } else {
                0
            }),
    {
        let moved = self.steps_available > 0;
        if moved {
            self.steps_available = self.steps_available - 1;
        }
        self.log.push(PanelCall::Nav(direction, moved));
        moved
    }

    fn hierarchy_step(&mut self, action: HierarchyAction) -> (r: bool)
        ensures
            r == old(self).hierarchy_ok,
    {
        let done = self.hierarchy_ok;
        self.log.push(PanelCall::Hierarchy(action, done));
        done
    }

    fn move_focus(&mut self, direction: WindowNavDirection) -> (r: WindowNavResult)
        ensures
            r == (if old(self).focus_found {
                WindowNavResult::Focused
            } else {
                WindowNavResult::Ignored
            }),
    {
        let result = if self.focus_found {
            WindowNavResult::Focused
        } else {
            WindowNavResult::Ignored
        };
        self.log.push(PanelCall::MoveFocus(direction, result));
        result
    }

    fn cycle_focus(&mut self, action: WindowNavAction) {
        self.log.push(PanelCall::CycleFocus(action));
    }
}

/// A popup over a number of candidates.
#[derive(Debug, Default)]
pub struct ScriptedPopup {
    pub visible: bool,
    pub enabled: bool,
    pub options: i32,
    pub selected: i32,
    /// The commands given.
    pub log: Vec<PopupCall>,
}

impl CompletionOps for ScriptedPopup {
    open spec fn popup(&self) -> PopupState {
        PopupState {
            visible: self.visible,
            enabled: self.enabled,
            options: self.options,
            selected: self.selected,
        }
    }

    open spec fn calls(&self) -> PopupLog {
        self.log@
    }

    fn popup_visible(&self) -> (r: bool) {
        self.visible
    }

    fn completion_enabled(&self) -> (r: bool) {
        self.enabled
    }

    fn option_count(&self) -> (r: i32) {
        self.options
    }

    fn selected_index(&self) -> (r: i32) {
        self.selected
    }

    /// Shows the popup with its first candidate selected, where completion is
    /// on and there is one.
    fn request(&mut self, force: bool)
        ensures
            final(self).popup() == (if old(self).enabled && old(self).options > 0 {
                PopupState { visible: true, selected: 0, ..old(self).popup() }
            } else {
                old(self).popup()
            }),
    {
        if self.enabled && self.options > 0 {
            self.visible = true;
            self.selected = 0;
        }
        self.log.push(PopupCall::Request(force));
    }

    fn select(&mut self, index: i32)
        ensures
            final(self).popup() == (PopupState { selected: index, ..old(self).popup() }),
    {
        self.selected = index;
        self.log.push(PopupCall::Select(index));
    }

    fn confirm(&mut self)
        ensures
            final(self).popup() == (PopupState { visible: false, ..old(self).popup() }),
    {
        self.visible = false;
        self.log.push(PopupCall::Confirm);
    }

    fn cancel(&mut self)
        ensures
            final(self).popup() == (PopupState {
                visible: false,
                selected: (-1) as i32,
                ..old(self).popup()
            }),
    {
        self.visible = false;
        self.selected = -1;
        self.log.push(PopupCall::Cancel);
    }

    fn hand_to_editor(&mut self)
        ensures
            final(self).popup() == old(self).popup(),
    {
        self.log.push(PopupCall::HandToEditor);
    }
}

/// A runner with a list of answers.
#[derive(Debug, Default)]
pub struct ScriptedRunner {
    /// What each run answers; a run beyond them declines.
    pub answers: Vec<Outcome>,
    /// The candidates that ran, with their answers.
    pub log: Vec<(Candidate, Outcome)>,
}

impl Runner for ScriptedRunner {
    open spec fn ran(&self) -> RunLog {
        self.log@.map_values(|e: (Candidate, Outcome)| (e.0@, e.1))
    }

    fn run(&mut self, candidate: &Candidate) -> (r: Outcome)
        ensures
            r == (if old(self).log@.len() < old(self).answers@.len() {
                old(self).answers@[old(self).log@.len() as int]
            } else {
                Outcome::Declined
            }),
    {
        let n: usize = self.log.len();
        let outcome: Outcome = if n < self.answers.len() {
            self.answers[n]
        } else {
            Outcome::Declined
        };
        let ghost before = self.ran();
        self.log.push((candidate.copy(), outcome));
        assert(self.ran() =~= before.push((candidate@, outcome)));
        outcome
    }
}

} // verus!
