//! What a verb can reach while it runs: the focused control, the autocomplete
//! popup, and the calls that only the running editor can make.

use vstd::prelude::*;
use crate::action::Params;
use crate::caps;
use crate::outcome::Outcome;
use crate::surface::KeyHook;

verus! {

/// A step along a list.
#[derive(Debug, Clone, Copy, PartialEq, Eq, Structural)]
pub enum NavDirection {
    Next,
    Prev,
}

/// A step in a hierarchy.
#[derive(Debug, Clone, Copy, PartialEq, Eq, Structural)]
pub enum HierarchyAction {
    Collapse,
    Expand,
}

/// A direction across panels.
#[derive(Debug, Clone, Copy, PartialEq, Eq, Structural)]
pub enum WindowNavDirection {
    Left,
    Right,
    Up,
    Down,
}

/// Whether a move across panels found a panel.
#[derive(Debug, Clone, Copy, PartialEq, Eq, Structural)]
pub enum WindowNavResult {
    Focused,
    Ignored,
}

/// A step in the cycle of panels.
#[derive(Debug, Clone, Copy, PartialEq, Eq, Structural)]
pub enum WindowNavAction {
    CycleNext,
    CyclePrev,
}

/// The signal contract that a dock's control follows.
#[derive(Debug, Clone, Copy, PartialEq, Eq, Structural)]
pub enum DockKind {
    Tree,
    ItemList,
    RichTextLabel,
}

/// The signal contract of a control, by what its class answers. A control is
/// a tree before it is a list, and a list before it is a label.
pub open spec fn kind_of(tree: bool, item_list: bool, rich_text_label: bool) -> Option<DockKind> {
    if tree {
        Some(DockKind::Tree)
    } else if item_list {
        Some(DockKind::ItemList)
    } else if rich_text_label {
        Some(DockKind::RichTextLabel)
    } else {
        None
    }
}

/// Whether `is_class` can give these answers, each question asked only where
/// the answers before it leave it open.
pub open spec fn kind_answers<F: Fn(&str) -> bool>(
    is_class: F,
    tree: bool,
    item_list: bool,
    rich_text_label: bool,
) -> bool {
    &&& call_ensures(is_class, ("Tree",), tree)
    &&& tree || call_ensures(is_class, ("ItemList",), item_list)
    &&& tree || item_list || call_ensures(is_class, ("RichTextLabel",), rich_text_label)
}

/// The signal contract of a control, where it follows one.
pub fn dock_kind_for<F: Fn(&str) -> bool>(is_class: F) -> (r: Option<DockKind>)
    requires
        call_requires(is_class, ("Tree",)),
        call_requires(is_class, ("ItemList",)),
        call_requires(is_class, ("RichTextLabel",)),
    ensures
        exists|tree: bool, list: bool, label: bool|
            #[trigger] kind_answers(is_class, tree, list, label) && r == kind_of(tree, list, label),
{
    let tree = is_class("Tree");
    if tree {
        assert(kind_answers(is_class, true, false, false));
        return Some(DockKind::Tree);
    }
    let list = is_class("ItemList");
    if list {
        assert(kind_answers(is_class, false, true, false));
        return Some(DockKind::ItemList);
    }
    let label = is_class("RichTextLabel");
    assert(kind_answers(is_class, false, false, label));
    if label {
        Some(DockKind::RichTextLabel)
    } else {
        None
    }
}

/// A control can be moved through exactly where it follows a signal contract,
/// and it has a hierarchy exactly where that contract is a tree's.
///
/// A class that granted navigation without a contract would be a dead key: the
/// rule would be eligible, and its verb would have nothing to drive.
pub proof fn capabilities_agree_with_dock_kinds(
    tree: bool,
    list: bool,
    label: bool,
    line: bool,
    edit: bool,
)
    ensures
        ({
            let offered = caps::control_caps(
                tree,
                !tree && list,
                !tree && !list && label,
                line,
                !line && edit,
            );
            let kind = kind_of(tree, list, label);
            &&& offered.vnav <==> kind is Some
            &&& offered.hierarchy <==> kind == Some(DockKind::Tree)
        }),
{
}

/// One call on the focused control, with its answer.
#[derive(Debug, Clone, Copy, PartialEq, Eq, Structural)]
pub enum PanelCall {
    Nav(NavDirection, bool),
    Hierarchy(HierarchyAction, bool),
    MoveFocus(WindowNavDirection, WindowNavResult),
    CycleFocus(WindowNavAction),
}

/// The calls made on a control, in order.
pub type PanelLog = Seq<PanelCall>;

/// The focused control, as commands.
///
/// An implementor performs one keystroke's worth of effect per call; `calls`
/// is the record of the calls made on it. The record belongs to the contract
/// alone: no code asks for it.
pub trait PanelOps: Sized {
    /// The calls made so far.
    spec fn calls(&self) -> PanelLog;

    /// One step in a direction; `false` where there is nothing to move to.
    fn nav_step(&mut self, direction: NavDirection) -> (r: bool)
        ensures
            final(self).calls() == old(self).calls().push(PanelCall::Nav(direction, r)),
    ;

    /// Expand or collapse; `false` where there is nothing to do.
    fn hierarchy_step(&mut self, action: HierarchyAction) -> (r: bool)
        ensures
            final(self).calls() == old(self).calls().push(PanelCall::Hierarchy(action, r)),
    ;

    /// Directional movement of focus across panels.
    fn move_focus(&mut self, direction: WindowNavDirection) -> (r: WindowNavResult)
        ensures
            final(self).calls() == old(self).calls().push(PanelCall::MoveFocus(direction, r)),
    ;

    /// Cycle focus through the panels.
    fn cycle_focus(&mut self, action: WindowNavAction)
        ensures
            final(self).calls() == old(self).calls().push(PanelCall::CycleFocus(action)),
    ;
}

/// What the autocomplete popup answers.
#[derive(Debug, Clone, Copy, PartialEq, Eq, Structural)]
pub struct PopupState {
    pub visible: bool,
    pub enabled: bool,
    pub options: i32,
    pub selected: i32,
}

/// One command to the autocomplete popup.
#[derive(Debug, Clone, Copy, PartialEq, Eq, Structural)]
pub enum PopupCall {
    Request(bool),
    Select(i32),
    Confirm,
    Cancel,
    HandToEditor,
}

/// The commands given to a popup, in order.
pub type PopupLog = Seq<PopupCall>;

/// The autocomplete popup, as questions and commands.
///
/// `popup` and `calls` belong to the contract alone: no code asks for them.
pub trait CompletionOps: Sized {
    /// What the popup answers now.
    spec fn popup(&self) -> PopupState;

    /// The commands given so far.
    spec fn calls(&self) -> PopupLog;

    /// Whether the popup is up.
    fn popup_visible(&self) -> (r: bool)
        ensures
            r == self.popup().visible,
    ;

    /// Whether the user has autocompletion on.
    fn completion_enabled(&self) -> (r: bool)
        ensures
            r == self.popup().enabled,
    ;

    /// How many candidates there are.
    fn option_count(&self) -> (r: i32)
        ensures
            r == self.popup().options,
    ;

    /// The selected candidate.
    fn selected_index(&self) -> (r: i32)
        ensures
            r == self.popup().selected,
    ;

    /// Build the candidate list anew.
    fn request(&mut self, force: bool)
        ensures
            final(self).calls() == old(self).calls().push(PopupCall::Request(force)),
    ;

    /// Select a candidate.
    fn select(&mut self, index: i32)
        ensures
            final(self).calls() == old(self).calls().push(PopupCall::Select(index)),
    ;

    /// Accept the selected candidate.
    fn confirm(&mut self)
        ensures
            final(self).calls() == old(self).calls().push(PopupCall::Confirm),
    ;

    /// Close the popup.
    fn cancel(&mut self)
        ensures
            final(self).calls() == old(self).calls().push(PopupCall::Cancel),
    ;

    /// Route the keystroke to the control itself: the engine does not see it,
    /// and it is not consumed.
    fn hand_to_editor(&mut self)
        ensures
            final(self).calls() == old(self).calls().push(PopupCall::HandToEditor),
    ;
}

/// One observable side effect of running an action.
#[derive(Debug, Clone, Copy, PartialEq, Eq)]
pub enum Effect {
    GrabFocus,
    EmitSignal { name: &'static str, arg: Option<i64> },
}

/// A call that only the running editor can make. Its answer is the verb's
/// outcome.
#[derive(Debug, Clone, Copy, PartialEq, Eq, Structural)]
pub enum HostCall {
    /// Activate the current item of the target.
    Enter(DockKind),
    /// Return focus to the script editor.
    EscapeFromDock,
    /// Focus the filter box of the target's dock.
    Slash,
    /// Leave the filter box, keeping the filter.
    LeaveSearch,
    /// Open the prompt for a new path.
    BeginCreate(DockKind),
    DeleteSelected,
    RenameSelected,
    YankSelectedPath(DockKind),
    ScanFilesystem,
    /// Copy the selected row of the target to the clipboard.
    CopyRow,
    /// Let the explorer drop a prompt that lost its place.
    PromptTick,
    /// Run the body of a verb that a third party registered.
    External(u32),
}

/// What running a verb leaves to do.
#[derive(Debug, Clone, Copy, PartialEq, Eq, Structural)]
pub enum Step {
    /// Nothing: this is the outcome.
    Done(Outcome),
    /// One call, whose answer is the outcome.
    Host(HostCall),
}

/// What an action can reach while it runs.
#[derive(Debug)]
pub struct ActionCtx<P: PanelOps, C: CompletionOps> {
    /// The focused control, when there is one.
    pub panel: Option<P>,
    /// The signal contract of the focused control, where it has one.
    pub kind: Option<DockKind>,
    /// The text of the selected row, where the focused control is a tree with
    /// a selection.
    pub row: Option<String>,
    pub params: Params,
    /// Records side effects instead of performing them.
    pub recorder: Option<Vec<Effect>>,
    /// Whether the transport lends the file system explorer.
    pub explorer: bool,
    /// The autocomplete popup, where the transport lends one.
    pub completion: Option<C>,
}

impl<P: PanelOps, C: CompletionOps> ActionCtx<P, C> {
    /// A context with a target and parameters, and nothing lent.
    pub fn new(panel: Option<P>, params: Params) -> (r: ActionCtx<P, C>)
        ensures
            r.panel == panel,
            r.params == params,
            r.kind is None && r.row is None && r.recorder is None,
            !r.explorer && r.completion is None,
    {
        ActionCtx {
            panel,
            kind: None,
            row: None,
            params,
            recorder: None,
            explorer: false,
            completion: None,
        }
    }

    /// A context without a target that records side effects.
    pub fn recording() -> (r: ActionCtx<P, C>)
        ensures
            r.panel is None && r.kind is None && r.row is None && r.completion is None,
            !r.explorer,
            r.params@.len() == 0,
            r.recorder matches Some(sink) && sink@.len() == 0,
    {
        ActionCtx {
            panel: None,
            kind: None,
            row: None,
            params: Params::new(),
            recorder: Some(Vec::new()),
            explorer: false,
            completion: None,
        }
    }

    /// Whether nothing but the recorder differs between two contexts.
    pub open spec fn same_but_recorder(self, other: ActionCtx<P, C>) -> bool {
        &&& self.panel == other.panel
        &&& self.kind == other.kind
        &&& self.row == other.row
        &&& self.params == other.params
        &&& self.explorer == other.explorer
        &&& self.completion == other.completion
    }

    /// Whether nothing but the focused control differs between two contexts.
    pub open spec fn same_but_panel(self, other: ActionCtx<P, C>) -> bool {
        &&& self.kind == other.kind
        &&& self.row == other.row
        &&& self.params == other.params
        &&& self.recorder == other.recorder
        &&& self.explorer == other.explorer
        &&& self.completion == other.completion
    }

    /// Whether nothing but the popup differs between two contexts.
    pub open spec fn same_but_completion(self, other: ActionCtx<P, C>) -> bool {
        &&& self.panel == other.panel
        &&& self.kind == other.kind
        &&& self.row == other.row
        &&& self.params == other.params
        &&& self.recorder == other.recorder
        &&& self.explorer == other.explorer
    }

    /// What becomes of an effect: it joins the record where a recorder listens,
    /// and is handed back otherwise, where it needs no target or there is one.
    pub open spec fn passes_on(
        self,
        after: ActionCtx<P, C>,
        effect: Effect,
        needs_target: bool,
        r: Option<Effect>,
    ) -> bool {
        &&& after.same_but_recorder(self)
        &&& match self.recorder {
            Some(sink) => {
                &&& after.recorder matches Some(now) && now@ == sink@.push(effect)
                &&& r is None
            },
            None => {
                &&& after.recorder is None
                &&& r == (if needs_target && self.panel is None {
                    None
                } else {
                    Some(effect)
                })
            },
        }
    }

    /// Have a signal emitted: recorded where a recorder listens, otherwise
    /// handed back to be emitted on the target, where there is one.
    pub fn emit(&mut self, name: &'static str, arg: Option<i64>) -> (r: Option<Effect>)
        ensures
            old(self).passes_on(*final(self), Effect::EmitSignal { name, arg }, true, r),
            final(self).same_but_recorder(*old(self)),
            ({
                let effect = Effect::EmitSignal { name, arg };
                match old(self).recorder {
                    Some(sink) => {
                        &&& final(self).recorder matches Some(after) && after@ == sink@.push(effect)
                        &&& r is None
                    },
                    None => {
                        &&& final(self).recorder is None
                        &&& r == (if old(self).panel is Some {
                            Some(effect)
                        } else {
                            None
                        })
                    },
                }
            }),
    {
        let effect = Effect::EmitSignal { name, arg };
        match self.recorder.take() {
            Some(mut sink) => {
                sink.push(effect);
                self.recorder = Some(sink);
                None
            },
            None => if self.panel.is_some() {
                Some(effect)
            } else {
                None
            },
        }
    }

    /// Have focus moved to a control once the keystroke is done with: recorded,
    /// or handed back to be performed.
    pub fn defer_grab_focus(&mut self) -> (r: Option<Effect>)
        ensures
            old(self).passes_on(*final(self), Effect::GrabFocus, false, r),
            final(self).same_but_recorder(*old(self)),
            match old(self).recorder {
                Some(sink) => {
                    &&& final(self).recorder matches Some(after) && after@ == sink@.push(
                        Effect::GrabFocus,
                    )
                    &&& r is None
                },
                None => {
                    &&& final(self).recorder is None
                    &&& r == Some(Effect::GrabFocus)
                },
            },
    {
        match self.recorder.take() {
            Some(mut sink) => {
                sink.push(Effect::GrabFocus);
                self.recorder = Some(sink);
                None
            },
            None => Some(Effect::GrabFocus),
        }
    }
}

impl KeyHook {
    /// What the hook asks for, where the transport lends the explorer or not.
    pub open spec fn asks(self, explorer: bool) -> Option<HostCall> {
        match self {
            KeyHook::PromptTick => if explorer {
                Some(HostCall::PromptTick)
            } else {
                None
            },
        }
    }

    /// Run the hook. It asks for the same call however often it runs, and for
    /// none where the explorer is not lent.
    pub fn run<P: PanelOps, C: CompletionOps>(self, cx: &ActionCtx<P, C>) -> (r: Option<HostCall>)
        ensures
            r == self.asks(cx.explorer),
    {
        match self {
            KeyHook::PromptTick => if cx.explorer {
                Some(HostCall::PromptTick)
            } else {
                None
            },
        }
    }
}

} // verus!
