//! Where a keystroke is, as literal data.
//!
//! A surface is a named place in the editor's interface where bindings live.
//! Every surface declares its parent, and depth in that forest is the only
//! specificity there is. The focus chain is sampled once per focus change;
//! from then on classification is a function of the recorded answers: probes
//! run in declaration order and the first that claims the chain wins.

use vstd::prelude::*;
use vstd::string::*;
use compact_str::CompactString;
use crate::caps;
use crate::caps::Caps;
use crate::key::Mode;
use crate::providers;
use crate::text;
use crate::text::{as_text, compact_from, str_eq};

verus! {

/// A surface's stable public name.
pub type SurfaceId = &'static str;

/// The identity of one control of the running editor.
pub type InstanceId = i64;

// ── The sampled focus chain ───────────────────────────────────────────

/// The class answers a probe may ask for, recorded when a chain is sampled.
///
/// Answers rather than class names, so that a subclass answers for its base.
#[derive(Debug, Clone, Copy, PartialEq, Eq, Hash, Structural)]
pub struct ClassMask {
    pub tree: bool,
    pub item_list: bool,
    pub rich_text_label: bool,
    pub line_edit: bool,
    /// True for a code editor too.
    pub text_edit: bool,
    pub code_edit: bool,
}

impl ClassMask {
    /// The recorded answer for a class; `false` for a class nobody asked about.
    pub open spec fn spec_answers(self, class: Seq<char>) -> bool {
        if class == "Tree"@ {
            self.tree
        } else if class == "ItemList"@ {
            self.item_list
        } else if class == "RichTextLabel"@ {
            self.rich_text_label
        } else if class == "LineEdit"@ {
            self.line_edit
        } else if class == "TextEdit"@ {
            self.text_edit
        } else if class == "CodeEdit"@ {
            self.code_edit
        } else {
            false
        }
    }

    /// The affordances of a control with these answers.
    pub open spec fn caps(self) -> Caps {
        caps::control_caps(
            self.tree,
            self.item_list,
            self.rich_text_label,
            self.line_edit,
            self.text_edit,
        )
    }

    /// No answer recorded.
    pub fn empty() -> (r: ClassMask)
        ensures
            !r.tree && !r.item_list && !r.rich_text_label,
            !r.line_edit && !r.text_edit && !r.code_edit,
    {
        ClassMask {
            tree: false,
            item_list: false,
            rich_text_label: false,
            line_edit: false,
            text_edit: false,
            code_edit: false,
        }
    }

    /// Ask every question of the vocabulary, and no other.
    pub fn of<F: Fn(&str) -> bool>(is_a: F) -> (r: ClassMask)
        requires
            call_requires(is_a, ("Tree",)),
            call_requires(is_a, ("ItemList",)),
            call_requires(is_a, ("RichTextLabel",)),
            call_requires(is_a, ("LineEdit",)),
            call_requires(is_a, ("TextEdit",)),
            call_requires(is_a, ("CodeEdit",)),
        ensures
            call_ensures(is_a, ("Tree",), r.tree),
            call_ensures(is_a, ("ItemList",), r.item_list),
            call_ensures(is_a, ("RichTextLabel",), r.rich_text_label),
            call_ensures(is_a, ("LineEdit",), r.line_edit),
            call_ensures(is_a, ("TextEdit",), r.text_edit),
            call_ensures(is_a, ("CodeEdit",), r.code_edit),
    {
        ClassMask {
            tree: is_a("Tree"),
            item_list: is_a("ItemList"),
            rich_text_label: is_a("RichTextLabel"),
            line_edit: is_a("LineEdit"),
            text_edit: is_a("TextEdit"),
            code_edit: is_a("CodeEdit"),
        }
    }

    /// Replay a recorded answer.
    pub fn answers(self, class: &str) -> (r: bool)
        ensures
            r == self.spec_answers(class@),
    {
        if str_eq(class, "Tree") {
            self.tree
        } else if str_eq(class, "ItemList") {
            self.item_list
        } else if str_eq(class, "RichTextLabel") {
            self.rich_text_label
        } else if str_eq(class, "LineEdit") {
            self.line_edit
        } else if str_eq(class, "TextEdit") {
            self.text_edit
        } else if str_eq(class, "CodeEdit") {
            self.code_edit
        } else {
            false
        }
    }
}

/// The class names of the vocabulary are all different.
proof fn vocabulary_is_distinct()
    ensures
        "ItemList"@ != "Tree"@,
        "RichTextLabel"@ != "Tree"@,
        "RichTextLabel"@ != "ItemList"@,
        "LineEdit"@ != "Tree"@,
        "LineEdit"@ != "ItemList"@,
        "LineEdit"@ != "RichTextLabel"@,
        "TextEdit"@ != "Tree"@,
        "TextEdit"@ != "ItemList"@,
        "TextEdit"@ != "RichTextLabel"@,
        "TextEdit"@ != "LineEdit"@,
{
    reveal_strlit("Tree");
    reveal_strlit("ItemList");
    reveal_strlit("RichTextLabel");
    reveal_strlit("LineEdit");
    reveal_strlit("TextEdit");
    assert("ItemList"@[0] == 'I');
    assert("LineEdit"@[0] == 'L');
    assert("TextEdit"@[0] == 'T');
    assert("RichTextLabel"@.len() == 13);
    assert("Tree"@.len() == 4);
}

/// One node of the sampled focus chain.
#[derive(Debug, Clone, PartialEq, Eq)]
pub struct ChainNode {
    /// The concrete class name, for ancestor lookups and diagnostics.
    pub class: CompactString,
    pub name: CompactString,
    pub instance: InstanceId,
    /// The recorded class answers.
    pub classes: ClassMask,
}

impl ChainNode {
    /// A node with the given class, name, identity and answers.
    ///
    /// A code editor is a text editor: recording one without the other would
    /// make a foreign code editor pass unseen.
    pub fn new(class: &str, name: &str, instance: InstanceId, classes: ClassMask) -> (r: ChainNode)
        requires
            classes.code_edit ==> classes.text_edit,
        ensures
            text::compact_text(r.class) == class@,
            text::compact_text(r.name) == name@,
            r.instance == instance,
            r.classes == classes,
    {
        ChainNode { class: compact_from(class), name: compact_from(name), instance, classes }
    }

    /// Whether the node answers for a class, or is of exactly that class.
    pub open spec fn spec_is(self, class: Seq<char>) -> bool {
        self.classes.spec_answers(class) || text::compact_text(self.class) == class
    }

    /// Whether the node answers for a class, or is of exactly that class.
    pub fn is(&self, class: &str) -> (r: bool)
        ensures
            r == self.spec_is(class@),
    {
        self.classes.answers(class) || str_eq(as_text(&self.class), class)
    }

    /// The affordances this control contributes, by the recorded answers.
    pub fn widget_caps(&self) -> (r: Caps)
        ensures
            r == self.classes.caps(),
    {
        let classes = self.classes;
        let answer = |class: &str| -> (r: bool)
            ensures
                r == classes.spec_answers(class@),
            { classes.answers(class) };
        proof {
            vocabulary_is_distinct();
        }
        Caps::of_control(answer)
    }
}

/// Everything the surface plane knows, sampled once per focus change.
#[derive(Debug, Clone, PartialEq, Eq)]
pub struct FocusChain {
    /// The focus owner, then its ancestors; empty where nothing has focus.
    pub nodes: Vec<ChainNode>,
    /// The code editor the plugin is attached to.
    pub attached_editor: Option<InstanceId>,
    /// The attached editor's mode, if a controller drives it.
    pub editor_mode: Option<Mode>,
    /// Whether the focus owner is inside the file system dock.
    pub in_filesystem_dock: bool,
    /// The navigable control that a filter box filters.
    pub sibling_nav_control: Option<InstanceId>,
    /// Whether the focus owner is the plugin's own prompt.
    pub is_plugin_prompt: bool,
}

impl Default for FocusChain {
    /// A chain without a focus owner and without an attached editor.
    fn default() -> (r: FocusChain)
        ensures
            r.nodes@.len() == 0,
            r.attached_editor is None,
            r.editor_mode is None,
            !r.in_filesystem_dock,
            r.sibling_nav_control is None,
            !r.is_plugin_prompt,
    {
        FocusChain {
            nodes: Vec::new(),
            attached_editor: None,
            editor_mode: None,
            in_filesystem_dock: false,
            sibling_nav_control: None,
            is_plugin_prompt: false,
        }
    }
}

impl FocusChain {
    /// The recorded facts of one walk from the focus owner upward.
    ///
    /// `nodes` is the walk, empty where nothing has focus; `dock` and
    /// `sibling` are what the editor answers about the focus owner, and
    /// `prompt` is the identity of the plugin's prompt. Without a focus owner
    /// only the attached editor and its mode are known, and only a line edit
    /// has a sibling to filter.
    pub fn sample(
        nodes: Vec<ChainNode>,
        attached_editor: Option<InstanceId>,
        editor_mode: Option<Mode>,
        dock: bool,
        sibling: Option<InstanceId>,
        prompt: Option<InstanceId>,
    ) -> (r: FocusChain)
        ensures
            r.nodes@ == nodes@,
            r.attached_editor == attached_editor,
            r.editor_mode == editor_mode,
            r.in_filesystem_dock == (nodes@.len() > 0 && dock),
            r.sibling_nav_control == (if nodes@.len() > 0 && nodes@[0].classes.line_edit {
                sibling
            } else {
                None
            }),
            r.is_plugin_prompt == (nodes@.len() > 0 && prompt == Some(nodes@[0].instance)),
    {
        if nodes.len() == 0 {
            return FocusChain { nodes, attached_editor, editor_mode, ..FocusChain::default() };
        }
        let sibling_nav_control: Option<InstanceId> = if nodes[0].classes.line_edit {
            sibling
        } else {
            None
        };
        let is_plugin_prompt = match prompt {
            Some(id) => id == nodes[0].instance,
            None => false,
        };
        FocusChain {
            nodes,
            attached_editor,
            editor_mode,
            in_filesystem_dock: dock,
            sibling_nav_control,
            is_plugin_prompt,
        }
    }

    /// Whether anything has focus.
    pub open spec fn has_focus(self) -> bool {
        self.nodes@.len() > 0
    }

    /// The focus owner, or `None` where nothing has focus.
    pub fn focus(&self) -> (r: Option<&ChainNode>)
        ensures
            r == (if self.has_focus() {
                Some(&self.nodes@[0])
            } else {
                None
            }),
    {
        if self.nodes.len() > 0 {
            Some(&self.nodes[0])
        } else {
            None
        }
    }

    /// Whether the focus owner answers for a class.
    pub open spec fn spec_focus_is(self, class: Seq<char>) -> bool {
        self.has_focus() && self.nodes@[0].spec_is(class)
    }

    /// Whether the focus owner answers for a class.
    pub fn focus_is(&self, class: &str) -> (r: bool)
        ensures
            r == self.spec_focus_is(class@),
    {
        match self.focus() {
            Some(node) => node.is(class),
            None => false,
        }
    }

    /// Whether a place of the chain is the nearest that answers for a class.
    pub open spec fn is_nearest(self, class: Seq<char>, i: int) -> bool {
        &&& 0 <= i < self.nodes@.len()
        &&& self.nodes@[i].spec_is(class)
        &&& forall|j: int| 0 <= j < i ==> !(#[trigger] self.nodes@[j]).spec_is(class)
    }

    /// Whether anything on the chain answers for a class.
    pub open spec fn has_ancestor(self, class: Seq<char>) -> bool {
        exists|j: int| 0 <= j < self.nodes@.len() && (#[trigger] self.nodes@[j]).spec_is(class)
    }

    /// Place of the nearest node that answers for a class, the focus owner
    /// among them.
    pub fn index_of_ancestor(&self, class: &str) -> (r: Option<usize>)
        ensures
            match r {
                Some(i) => self.is_nearest(class@, i as int),
                None => !self.has_ancestor(class@),
            },
    {
        let mut i: usize = 0;
        while i < self.nodes.len()
            invariant
                i <= self.nodes@.len(),
                forall|j: int| 0 <= j < i ==> !(#[trigger] self.nodes@[j]).spec_is(class@),
            decreases self.nodes@.len() - i,
        {
            if self.nodes[i].is(class) {
                return Some(i);
            }
            i = i + 1;
        }
        None
    }

    /// Whether the focus owner is the editor the plugin drives.
    pub open spec fn editor_focused(self) -> bool {
        self.has_focus() && self.attached_editor == Some(self.nodes@[0].instance)
    }

    /// Whether the focus owner is the editor the plugin drives.
    pub fn attached_editor_focused(&self) -> (r: bool)
        ensures
            r == self.editor_focused(),
    {
        match (self.focus(), self.attached_editor) {
            (Some(node), Some(attached)) => node.instance == attached,
            _ => false,
        }
    }

    /// The affordances of the focus owner.
    pub open spec fn focus_caps(self) -> Caps {
        if self.has_focus() {
            self.nodes@[0].classes.caps()
        } else {
            Caps::spec_empty()
        }
    }

    /// Affordances of the focus owner. Ancestors contribute nothing.
    pub fn widget_caps(&self) -> (r: Caps)
        ensures
            r == self.focus_caps(),
    {
        match self.focus() {
            Some(node) => node.widget_caps(),
            None => Caps::empty(),
        }
    }
}

// ── Surfaces ──────────────────────────────────────────────────────────

/// Where on the chain a surface matched.
#[derive(Debug, Clone, Copy, PartialEq, Eq, Structural)]
pub enum Anchor {
    /// At a node of the chain.
    Node(usize),
    /// With no focus owner at all.
    Rootless,
}

/// How a surface terminates the upward walk.
#[derive(Debug, Clone, Copy, PartialEq, Eq, Structural)]
pub enum Seal {
    /// Bindings on ancestors of this surface still apply.
    Open,
    /// Bare keys stop here; keys with Ctrl, Alt or Meta continue to the root.
    Sealed,
    /// Nothing is looked up at all.
    Barrier,
}

/// A predicate over the sampled chain, by name.
#[derive(Debug, Clone, Copy, PartialEq, Eq, Structural)]
pub enum Probe {
    /// Reached by other means than classification.
    Never,
    /// Anything that has focus.
    Focused,
    EditorNav,
    EditorInsert,
    Prompt,
    SearchBox,
    FileSystem,
    Debugger,
    Dock,
    Foreign,
    Unknown,
}

impl Probe {
    /// Where the probe claims a chain, if it does.
    pub open spec fn claims(self, chain: FocusChain) -> Option<Anchor> {
        match self {
            Probe::Never => None,
            Probe::Focused => if chain.has_focus() {
                Some(Anchor::Node(0))
            } else {
                None
            },
            Probe::EditorNav => providers::editor::nav_claims(chain),
            Probe::EditorInsert => providers::editor::insert_claims(chain),
            Probe::Prompt => providers::prompt::claims(chain),
            Probe::SearchBox => providers::searchbox::claims(chain),
            Probe::FileSystem => providers::filesystem::claims(chain),
            Probe::Debugger => providers::debugger::claims(chain),
            Probe::Dock => providers::dock::claims(chain),
            Probe::Foreign => providers::foreign::claims(chain),
            Probe::Unknown => providers::unknown::claims(chain),
        }
    }

    /// Run the probe.
    pub fn run(self, chain: &FocusChain) -> (r: Option<Anchor>)
        ensures
            r == self.claims(*chain),
    {
        match self {
            Probe::Never => None,
            Probe::Focused => match chain.focus() {
                Some(_) => Some(Anchor::Node(0)),
                None => None,
            },
            Probe::EditorNav => providers::editor::probe_nav(chain),
            Probe::EditorInsert => providers::editor::probe_insert(chain),
            Probe::Prompt => providers::prompt::probe(chain),
            Probe::SearchBox => providers::searchbox::probe(chain),
            Probe::FileSystem => providers::filesystem::probe(chain),
            Probe::Debugger => providers::debugger::probe(chain),
            Probe::Dock => providers::dock::probe(chain),
            Probe::Foreign => providers::foreign::probe(chain),
            Probe::Unknown => providers::unknown::probe(chain),
        }
    }
}

/// What a surface does on every keystroke, before any lookup.
#[derive(Debug, Clone, Copy, PartialEq, Eq, Structural)]
pub enum KeyHook {
    /// Dismiss a prompt that lost its place.
    PromptTick,
}

/// A declared place in the editor's interface where bindings live.
#[derive(Debug, Clone, Copy)]
pub struct SurfaceSpec {
    pub id: SurfaceId,
    /// Declared forest parent.
    pub parent: Option<SurfaceId>,
    pub seal: Seal,
    /// Capabilities this surface adds to the control's own.
    pub grants: Caps,
    pub probe: Probe,
    /// Runs once per keystroke for every surface on the active path.
    pub on_key: Option<KeyHook>,
    /// Where the anchor says so and the engine claims the matched key, the key
    /// flows on to the engine.
    pub yields_to_engine: bool,
    /// Where the anchor says so, the positional guess is withheld from the
    /// whole path.
    pub refuses_positional: bool,
}

/// The resolved active path, deepest surface first.
#[derive(Debug, Clone)]
pub struct SurfacePath {
    pub ids: Vec<SurfaceId>,
    pub anchor: Anchor,
    /// The anchored control's capabilities and every grant on the path.
    pub caps: Caps,
    /// Seal of the deepest surface.
    pub seal: Seal,
    /// Of the deepest surface only.
    pub anchor_yields_to_engine: bool,
    /// Of the deepest surface only.
    pub anchor_refuses_positional: bool,
}

// ── The forest ────────────────────────────────────────────────────────

/// Place of the first surface with a name.
pub open spec fn place_of(specs: Seq<SurfaceSpec>, id: Seq<char>) -> Option<int>
    decreases specs.len(),
{
    if specs.len() == 0 {
        None
    } else {
        match place_of(specs.drop_last(), id) {
            Some(i) => Some(i),
            None => if specs.last().id@ == id {
                Some(specs.len() - 1)
            } else {
                None
            },
        }
    }
}

/// What [`place_of`] answers: the least place that has the name.
pub proof fn place_of_is_first(specs: Seq<SurfaceSpec>, id: Seq<char>)
    ensures
        match place_of(specs, id) {
            Some(i) => {
                &&& 0 <= i < specs.len()
                &&& specs[i].id@ == id
                &&& forall|j: int| 0 <= j < i ==> (#[trigger] specs[j]).id@ != id
            },
            None => forall|j: int| 0 <= j < specs.len() ==> (#[trigger] specs[j]).id@ != id,
        },
    decreases specs.len(),
{
    if specs.len() > 0 {
        let init = specs.drop_last();
        place_of_is_first(init, id);
        match place_of(init, id) {
            Some(i) => {
                assert(specs[i] == init[i]);
                assert forall|j: int| 0 <= j < i implies (#[trigger] specs[j]).id@ != id by {
                    assert(specs[j] == init[j]);
                }
            },
            None => {
                assert forall|j: int| 0 <= j < specs.len() - 1 implies (#[trigger] specs[j]).id@
                    != id by {
                    assert(specs[j] == init[j]);
                }
            },
        }
    }
}

/// A place that has a name nothing before it has is the first with that name.
pub proof fn first_is_place_of(specs: Seq<SurfaceSpec>, id: Seq<char>, i: int)
    requires
        0 <= i < specs.len(),
        specs[i].id@ == id,
        forall|j: int| 0 <= j < i ==> (#[trigger] specs[j]).id@ != id,
    ensures
        place_of(specs, id) == Some(i),
{
    place_of_is_first(specs, id);
    if let Some(k) = place_of(specs, id) {
        if k < i {
            assert(specs[k].id@ != id);
        }
        if i < k {
            assert(specs[i].id@ != id);
        }
    }
}

/// The declared path upward from a name, at most `fuel` surfaces long.
pub open spec fn climb(specs: Seq<SurfaceSpec>, from: Option<SurfaceId>, fuel: nat) -> Seq<
    SurfaceId,
>
    decreases fuel,
{
    if fuel == 0 {
        Seq::empty()
    } else {
        match from {
            None => Seq::empty(),
            Some(id) => match place_of(specs, id@) {
                None => Seq::empty(),
                Some(i) => seq![specs[i].id] + climb(
                    specs,
                    specs[i].parent,
                    (fuel - 1) as nat,
                ),
            },
        }
    }
}

/// The declared path from a surface to its root, deepest first.
pub open spec fn path_of(specs: Seq<SurfaceSpec>, leaf: SurfaceId) -> Seq<SurfaceId> {
    climb(specs, Some(leaf), specs.len())
}

/// Whether a name is on a path.
pub open spec fn on_path(path: Seq<SurfaceId>, id: Seq<char>) -> bool {
    exists|i: int| 0 <= i < path.len() && (#[trigger] path[i])@ == id
}

/// Every surface whose probe claims a chain, in probe order.
pub open spec fn claimants_of(specs: Seq<SurfaceSpec>, chain: FocusChain) -> Seq<
    (SurfaceId, Anchor),
>
    decreases specs.len(),
{
    if specs.len() == 0 {
        Seq::empty()
    } else {
        let init = claimants_of(specs.drop_last(), chain);
        match specs.last().probe.claims(chain) {
            Some(anchor) => init.push((specs.last().id, anchor)),
            None => init,
        }
    }
}

/// Place of the first surface whose probe claims a chain.
pub open spec fn first_claim(specs: Seq<SurfaceSpec>, chain: FocusChain) -> Option<int>
    decreases specs.len(),
{
    if specs.len() == 0 {
        None
    } else {
        match first_claim(specs.drop_last(), chain) {
            Some(i) => Some(i),
            None => if specs.last().probe.claims(chain) is Some {
                Some(specs.len() - 1)
            } else {
                None
            },
        }
    }
}

/// A claim that nothing before it makes is the first.
pub proof fn claim_is_first(specs: Seq<SurfaceSpec>, chain: FocusChain, i: int)
    requires
        0 <= i < specs.len(),
        specs[i].probe.claims(chain) is Some,
        forall|j: int| 0 <= j < i ==> (#[trigger] specs[j]).probe.claims(chain) is None,
    ensures
        first_claim(specs, chain) == Some(i),
    decreases specs.len(),
{
    let init = specs.drop_last();
    if i < specs.len() - 1 {
        assert(init[i] == specs[i]);
        assert forall|j: int| 0 <= j < i implies (#[trigger] init[j]).probe.claims(
            chain,
        ) is None by {
            assert(init[j] == specs[j]);
        }
        claim_is_first(init, chain, i);
    } else {
        assert forall|j: int| 0 <= j < init.len() implies (#[trigger] init[j]).probe.claims(
            chain,
        ) is None by {
            assert(init[j] == specs[j]);
        }
        no_claim(init, chain);
    }
}

/// Where no probe claims the chain there is no first claim.
pub proof fn no_claim(specs: Seq<SurfaceSpec>, chain: FocusChain)
    requires
        forall|j: int| 0 <= j < specs.len() ==> (#[trigger] specs[j]).probe.claims(chain) is None,
    ensures
        first_claim(specs, chain) is None,
    decreases specs.len(),
{
    if specs.len() > 0 {
        let init = specs.drop_last();
        assert forall|j: int| 0 <= j < init.len() implies (#[trigger] init[j]).probe.claims(
            chain,
        ) is None by {
            assert(init[j] == specs[j]);
        }
        no_claim(init, chain);
        assert(specs[specs.len() - 1].probe.claims(chain) is None);
    }
}

/// What the surfaces of a path add to a capability set.
pub open spec fn with_grants(
    specs: Seq<SurfaceSpec>,
    path: Seq<SurfaceId>,
    base: Caps,
) -> Caps
    decreases path.len(),
{
    if path.len() == 0 {
        base
    } else {
        let init = with_grants(specs, path.drop_last(), base);
        match place_of(specs, path.last()@) {
            Some(i) => init.spec_union(specs[i].grants),
            None => init,
        }
    }
}

/// The capabilities of the control an anchor names.
pub open spec fn anchor_caps(chain: FocusChain, anchor: Anchor) -> Caps {
    match anchor {
        Anchor::Node(i) => if i < chain.nodes@.len() {
            chain.nodes@[i as int].classes.caps()
        } else {
            Caps::spec_empty()
        },
        Anchor::Rootless => Caps::spec_empty(),
    }
}

/// Whether a path is what a chain classifies to, given the surface that claims
/// it.
pub open spec fn is_path_at(
    specs: Seq<SurfaceSpec>,
    chain: FocusChain,
    at: int,
    path: SurfacePath,
) -> bool {
    let spec = specs[at];
    let anchor = spec.probe.claims(chain)->0;
    &&& path.ids@ == path_of(specs, spec.id)
    &&& path.anchor == anchor
    &&& path.caps == with_grants(specs, path_of(specs, spec.id), anchor_caps(chain, anchor))
    &&& path.seal == spec.seal
    &&& path.anchor_yields_to_engine == spec.yields_to_engine
    &&& path.anchor_refuses_positional == spec.refuses_positional
}

/// The declared parent relation over a set of surfaces, in probe order.
#[derive(Debug, Clone)]
pub struct Forest {
    specs: Vec<SurfaceSpec>,
}

impl View for Forest {
    type V = Seq<SurfaceSpec>;

    closed spec fn view(&self) -> Seq<SurfaceSpec> {
        self.specs@
    }
}

impl Default for Forest {
    /// A forest that declares nothing.
    fn default() -> (r: Forest)
        ensures
            r@.len() == 0,
    {
        Forest { specs: Vec::new() }
    }
}

impl Forest {
    /// A forest of surfaces, in probe order.
    pub fn new(specs: &[SurfaceSpec]) -> (r: Forest)
        ensures
            r@ == specs@,
    {
        let mut out: Vec<SurfaceSpec> = Vec::new();
        let mut i: usize = 0;
        while i < specs.len()
            invariant
                i <= specs@.len(),
                out@ == specs@.take(i as int),
            decreases specs@.len() - i,
        {
            out.push(specs[i]);
            i = i + 1;
            assert(out@ =~= specs@.take(i as int));
        }
        assert(specs@.take(i as int) =~= specs@);
        Forest { specs: out }
    }

    /// Place of the first surface with a name.
    pub fn position(&self, id: &str) -> (r: Option<usize>)
        ensures
            match (r, place_of(self@, id@)) {
                (Some(i), Some(at)) => i == at && i < self@.len(),
                (None, None) => true,
                _ => false,
            },
    {
        let mut i: usize = 0;
        while i < self.specs.len()
            invariant
                i <= self@.len(),
                forall|j: int| 0 <= j < i ==> (#[trigger] self@[j]).id@ != id@,
            decreases self@.len() - i,
        {
            if str_eq(self.specs[i].id, id) {
                proof {
                    first_is_place_of(self@, id@, i as int);
                }
                return Some(i);
            }
            i = i + 1;
        }
        proof {
            place_of_is_first(self@, id@);
        }
        None
    }

    /// The surface declared under a name: the first, where several are.
    pub fn get(&self, id: &str) -> (r: Option<&SurfaceSpec>)
        ensures
            r == (match place_of(self@, id@) {
                Some(i) => Some(&self@[i]),
                None => None,
            }),
    {
        match self.position(id) {
            Some(i) => Some(&self.specs[i]),
            None => None,
        }
    }

    /// The declared names, in probe order.
    pub fn ids(&self) -> (r: Vec<SurfaceId>)
        ensures
            r@ == self@.map_values(|s: SurfaceSpec| s.id),
    {
        let mut out: Vec<SurfaceId> = Vec::new();
        let mut i: usize = 0;
        while i < self.specs.len()
            invariant
                i <= self@.len(),
                out@.len() == i,
                forall|j: int| 0 <= j < i ==> out@[j] == self@[j].id,
            decreases self@.len() - i,
        {
            out.push(self.specs[i].id);
            i = i + 1;
        }
        assert(out@ =~= self@.map_values(|s: SurfaceSpec| s.id));
        out
    }

    /// How many surfaces are declared.
    pub fn len(&self) -> (r: usize)
        ensures
            r == self@.len(),
    {
        self.specs.len()
    }

    /// The declared path from `leaf` to its root, deepest first.
    ///
    /// Bounded by the number of surfaces, so that a declared cycle cannot
    /// hang a keystroke.
    pub fn path_from(&self, leaf: SurfaceId) -> (r: Vec<SurfaceId>)
        ensures
            r@ == path_of(self@, leaf),
    {
        let mut path: Vec<SurfaceId> = Vec::new();
        let mut current: Option<SurfaceId> = Some(leaf);
        let mut left: usize = self.specs.len();
        assert(Seq::<SurfaceId>::empty() + path_of(self@, leaf) =~= path_of(self@, leaf));
        while left > 0
            invariant
                left <= self@.len(),
                path_of(self@, leaf) == path@ + climb(self@, current, left as nat),
            decreases left,
        {
            match current {
                Some(id) => match self.position(id) {
                    Some(i) => {
                        let spec = self.specs[i];
                        let ghost before = path@;
                        path.push(spec.id);
                        proof {
                            let rest = climb(self@, spec.parent, (left - 1) as nat);
                            assert(before + (seq![spec.id] + rest) =~= path@ + rest);
                        }
                        current = spec.parent;
                    },
                    None => {
                        assert(path@ + Seq::<SurfaceId>::empty() =~= path@);
                        return path;
                    },
                },
                None => {
                    assert(path@ + Seq::<SurfaceId>::empty() =~= path@);
                    return path;
                },
            }
            left = left - 1;
        }
        assert(path@ + Seq::<SurfaceId>::empty() =~= path@);
        path
    }

    /// Whether `maybe` is `of` or one of its declared ancestors.
    pub fn is_ancestor_or_self(&self, maybe: &str, of: SurfaceId) -> (r: bool)
        ensures
            r == on_path(path_of(self@, of), maybe@),
    {
        let path = self.path_from(of);
        let mut i: usize = 0;
        while i < path.len()
            invariant
                i <= path@.len(),
                path@ == path_of(self@, of),
                forall|j: int| 0 <= j < i ==> (#[trigger] path@[j])@ != maybe@,
            decreases path@.len() - i,
        {
            if str_eq(path[i], maybe) {
                return true;
            }
            i = i + 1;
        }
        false
    }

    /// Every surface whose probe claims `chain`, in probe order.
    pub fn claimants(&self, chain: &FocusChain) -> (r: Vec<(SurfaceId, Anchor)>)
        ensures
            r@ == claimants_of(self@, *chain),
    {
        let mut out: Vec<(SurfaceId, Anchor)> = Vec::new();
        let mut i: usize = 0;
        assert(self@.take(0) =~= Seq::empty());
        while i < self.specs.len()
            invariant
                i <= self@.len(),
                out@ == claimants_of(self@.take(i as int), *chain),
            decreases self@.len() - i,
        {
            let spec = self.specs[i];
            assert(self@.take(i + 1).drop_last() =~= self@.take(i as int));
            match spec.probe.run(chain) {
                Some(anchor) => {
                    out.push((spec.id, anchor));
                },
                None => {},
            }
            i = i + 1;
        }
        assert(self@.take(i as int) =~= self@);
        out
    }

    /// Classify a sampled chain into its active path.
    ///
    /// The first surface whose probe claims the chain is the anchor; `None`
    /// only where no probe claims it.
    pub fn classify(&self, chain: &FocusChain) -> (r: Option<SurfacePath>)
        ensures
            match (r, first_claim(self@, *chain)) {
                (Some(path), Some(at)) => is_path_at(self@, *chain, at, path),
                (None, None) => true,
                _ => false,
            },
    {
        let mut i: usize = 0;
        while i < self.specs.len()
            invariant
                i <= self@.len(),
                forall|j: int|
                    0 <= j < i ==> (#[trigger] self@[j]).probe.claims(*chain) is None,
            decreases self@.len() - i,
        {
            let spec = self.specs[i];
            match spec.probe.run(chain) {
                Some(anchor) => {
                    proof {
                        claim_is_first(self@, *chain, i as int);
                    }
                    let ids = self.path_from(spec.id);
                    let base: Caps = match anchor {
                        Anchor::Node(idx) => if idx < chain.nodes.len() {
                            chain.nodes[idx].widget_caps()
                        } else {
                            Caps::empty()
                        },
                        Anchor::Rootless => Caps::empty(),
                    };
                    let caps = self.grant(&ids, base);
                    return Some(
                        SurfacePath {
                            ids,
                            anchor,
                            caps,
                            seal: spec.seal,
                            anchor_yields_to_engine: spec.yields_to_engine,
                            anchor_refuses_positional: spec.refuses_positional,
                        },
                    );
                },
                None => {},
            }
            i = i + 1;
        }
        proof {
            no_claim(self@, *chain);
        }
        None
    }

    /// Add what the surfaces of a path grant.
    fn grant(&self, ids: &Vec<SurfaceId>, base: Caps) -> (r: Caps)
        ensures
            r == with_grants(self@, ids@, base),
    {
        let mut caps = base;
        let mut i: usize = 0;
        assert(ids@.take(0) =~= Seq::empty());
        while i < ids.len()
            invariant
                i <= ids@.len(),
                caps == with_grants(self@, ids@.take(i as int), base),
            decreases ids@.len() - i,
        {
            assert(ids@.take(i + 1).drop_last() =~= ids@.take(i as int));
            match self.get(ids[i]) {
                Some(surface) => {
                    caps = caps.union(surface.grants);
                },
                None => {},
            }
            i = i + 1;
        }
        assert(ids@.take(i as int) =~= ids@);
        caps
    }
}

// ── The audit ─────────────────────────────────────────────────────────

/// What is wrong with one declaration of a forest.
///
/// A name is declared once, a parent is declared, parents make no cycle, and a
/// child is probed before its parent.
pub open spec fn errors_at(specs: Seq<SurfaceSpec>, i: int) -> Seq<Seq<char>> {
    let spec = specs[i];
    let none = Seq::<Seq<char>>::empty();
    let twice = if on_path(specs.take(i).map_values(|s: SurfaceSpec| s.id), spec.id@) {
        none.push("surface '"@ + spec.id@ + "' is declared twice"@)
    } else {
        none
    };
    match spec.parent {
        None => twice,
        Some(parent) => match place_of(specs, parent@) {
            None => twice.push(
                "surface '"@ + spec.id@ + "' names undeclared parent '"@ + parent@ + "'"@,
            ),
            Some(at) => {
                let cyclic = if never_ends(specs, spec.id) {
                    twice.push("surface '"@ + spec.id@ + "' lies on a parent cycle"@)
                } else {
                    twice
                };
                if at < i {
                    cyclic.push(
                        "surface '"@ + spec.id@ + "' is probed after its parent '"@ + parent@
                            + "'; the child would never match"@,
                    )
                } else {
                    cyclic
                }
            },
        },
    }
}

/// Whether the path upward from a surface runs as long as the forest is and
/// still has a parent to go to.
pub open spec fn never_ends(specs: Seq<SurfaceSpec>, leaf: SurfaceId) -> bool {
    let path = path_of(specs, leaf);
    &&& path.len() == specs.len()
    &&& place_of(specs, path.last()@) matches Some(i) && specs[i].parent is Some
}

/// What is wrong with the first `n` declarations of a forest.
pub open spec fn audit_of(specs: Seq<SurfaceSpec>, n: int) -> Seq<Seq<char>>
    decreases n,
{
    if n <= 0 {
        Seq::empty()
    } else {
        audit_of(specs, n - 1) + errors_at(specs, n - 1)
    }
}

/// A piece of text after another, as a new string.
fn sentence(a: &str, b: &str, c: &str) -> (r: String)
    ensures
        r@ == a@ + b@ + c@,
{
    let mut out = String::new();
    out.append(a);
    out.append(b);
    out.append(c);
    assert(out@ =~= a@ + b@ + c@);
    out
}

impl Forest {
    /// What is wrong with the declarations, in words.
    pub fn audit(&self) -> (r: Vec<String>)
        ensures
            text::contents(r@) == audit_of(self@, self@.len() as int),
    {
        let mut errors: Vec<String> = Vec::new();
        let mut i: usize = 0;
        assert(text::contents(errors@) =~= Seq::empty());
        while i < self.specs.len()
            invariant
                i <= self@.len(),
                text::contents(errors@) == audit_of(self@, i as int),
            decreases self@.len() - i,
        {
            self.audit_one(i, &mut errors);
            i = i + 1;
        }
        errors
    }

    /// What is wrong with one declaration, in words.
    fn audit_one(&self, i: usize, errors: &mut Vec<String>)
        requires
            i < self@.len(),
        ensures
            text::contents(final(errors)@) == text::contents(old(errors)@) + errors_at(self@, i as int),
    {
        let ghost start = text::contents(errors@);
        let spec = self.specs[i];
        let ghost earlier = self@.take(i as int).map_values(|s: SurfaceSpec| s.id);
        let ghost none = Seq::<Seq<char>>::empty();
        // A second declaration is an error, never an overwrite.
        let mut j: usize = 0;
        let mut twice = false;
        while j < i && !twice
            invariant
                j <= i < self@.len(),
                earlier == self@.take(i as int).map_values(|s: SurfaceSpec| s.id),
                spec == self@[i as int],
                twice == exists|k: int| 0 <= k < j && (#[trigger] earlier[k])@ == spec.id@,
            decreases i - j,
        {
            assert(earlier[j as int] == self@[j as int].id);
            if str_eq(self.specs[j].id, spec.id) {
                twice = true;
            }
            j = j + 1;
        }
        assert(twice == on_path(earlier, spec.id@));
        if twice {
            errors.push(sentence("surface '", spec.id, "' is declared twice"));
        }
        let ghost after_twice = if twice {
            none.push("surface '"@ + spec.id@ + "' is declared twice"@)
        } else {
            none
        };
        assert(text::contents(errors@) =~= start + after_twice);
        let parent: SurfaceId = match spec.parent {
            Some(parent) => parent,
            None => {
                return ;
            },
        };
        let parent_pos: usize = match self.position(parent) {
            Some(at) => at,
            None => {
                let head = sentence("surface '", spec.id, "' names undeclared parent '");
                errors.push(sentence(head.as_str(), parent, "'"));
                assert(text::contents(errors@) =~= start + errors_at(self@, i as int));
                return ;
            },
        };
        let path = self.path_from(spec.id);
        let mut cyclic = false;
        if path.len() == self.specs.len() {
            if let Some(top) = self.get(path[path.len() - 1]) {
                if top.parent.is_some() {
                    cyclic = true;
                }
            }
        }
        assert(cyclic == never_ends(self@, spec.id));
        if cyclic {
            errors.push(sentence("surface '", spec.id, "' lies on a parent cycle"));
        }
        let ghost after_cycle = if cyclic {
            after_twice.push("surface '"@ + spec.id@ + "' lies on a parent cycle"@)
        } else {
            after_twice
        };
        assert(text::contents(errors@) =~= start + after_cycle);
        // A child after its parent would be unreachable.
        if parent_pos < i {
            let head = sentence("surface '", spec.id, "' is probed after its parent '");
            errors.push(sentence(head.as_str(), parent, "'; the child would never match"));
        }
        assert(text::contents(errors@) =~= start + errors_at(self@, i as int));
    }
}

/// Nothing is wrong with any declaration of a forest that audits clean.
proof fn clean_at(specs: Seq<SurfaceSpec>, n: int, i: int)
    requires
        0 <= i < n <= specs.len(),
        audit_of(specs, n).len() == 0,
    ensures
        errors_at(specs, i).len() == 0,
    decreases n,
{
    if i < n - 1 {
        clean_at(specs, n - 1, i);
    }
}

/// Whether the top of the path from a surface is a root.
pub open spec fn reaches_root(specs: Seq<SurfaceSpec>, leaf: SurfaceId) -> bool {
    let path = path_of(specs, leaf);
    &&& path.len() > 0
    &&& place_of(specs, path.last()@) matches Some(i) && specs[i].parent is None
}

/// In a forest that audits clean every name is declared once, every child is
/// probed before its parent, and every path upward ends at a root.
pub proof fn clean_forest_is_a_forest(specs: Seq<SurfaceSpec>, i: int, j: int)
    requires
        audit_of(specs, specs.len() as int).len() == 0,
        0 <= i < specs.len(),
    ensures
        0 <= j < i ==> specs[j].id@ != specs[i].id@,
        specs[i].parent matches Some(parent) ==> place_of(specs, parent@) matches Some(at) && i
            < at,
        reaches_root(specs, specs[i].id),
{
    clean_at(specs, specs.len() as int, i);
    let earlier = specs.take(i).map_values(|s: SurfaceSpec| s.id);
    if 0 <= j < i {
        assert(earlier[j] == specs[j].id);
    }
    place_of_is_first(specs, specs[i].id@);
    assert forall|k: int| 0 <= k < i implies (#[trigger] specs[k]).id@ != specs[i].id@ by {
        assert(earlier[k] == specs[k].id);
    }
    first_is_place_of(specs, specs[i].id@, i);
    let path = path_of(specs, specs[i].id);
    assert(path[0] == specs[i].id);
    match specs[i].parent {
        None => {
            assert(climb(specs, None, (specs.len() - 1) as nat) =~= Seq::empty());
            assert(path =~= seq![specs[i].id]);
        },
        Some(parent) => {
            let at = place_of(specs, parent@)->0;
            if at == i {
                looping_climb(specs, i, specs[i].id, specs.len());
            }
            clean_climb(specs, specs[i].id, specs.len());
        },
    }
}

/// A surface that is its own parent makes a path that never ends.
proof fn looping_climb(specs: Seq<SurfaceSpec>, i: int, id: SurfaceId, fuel: nat)
    requires
        0 <= i < specs.len(),
        fuel > 0,
        place_of(specs, id@) == Some(i),
        place_of(specs, specs[i].id@) == Some(i),
        specs[i].parent matches Some(parent) && place_of(specs, parent@) == Some(i),
    ensures
        climb(specs, Some(id), fuel).len() == fuel,
        climb(specs, Some(id), fuel).last() == specs[i].id,
    decreases fuel,
{
    let parent = specs[i].parent->0;
    let rest = climb(specs, Some(parent), (fuel - 1) as nat);
    if fuel > 1 {
        looping_climb(specs, i, parent, (fuel - 1) as nat);
        assert((seq![specs[i].id] + rest).last() == rest.last());
    } else {
        assert(rest =~= Seq::empty());
    }
}

/// A path in a clean forest ends at a root or runs out of fuel.
proof fn clean_climb(specs: Seq<SurfaceSpec>, from: SurfaceId, fuel: nat)
    requires
        audit_of(specs, specs.len() as int).len() == 0,
        place_of(specs, from@) is Some,
        fuel > 0,
    ensures
        ({
            let path = climb(specs, Some(from), fuel);
            &&& path.len() > 0
            &&& place_of(specs, path.last()@) matches Some(i) && (specs[i].parent is None
                || path.len() == fuel)
        }),
    decreases fuel,
{
    let i = place_of(specs, from@)->0;
    place_of_is_first(specs, from@);
    first_is_place_of(specs, specs[i].id@, i);
    clean_at(specs, specs.len() as int, i);
    let rest = climb(specs, specs[i].parent, (fuel - 1) as nat);
    let path = seq![specs[i].id] + rest;
    match specs[i].parent {
        None => {
            assert(rest =~= Seq::empty());
        },
        Some(parent) => {
            if fuel > 1 {
                clean_climb(specs, parent, (fuel - 1) as nat);
                assert(path.last() == rest.last());
            } else {
                assert(rest =~= Seq::empty());
            }
        },
    }
}

/// Whether declarations make a forest in probe order: every name is declared
/// once, and every parent is declared after its child.
pub open spec fn is_forest(specs: Seq<SurfaceSpec>) -> bool {
    &&& forall|i: int, j: int|
        0 <= i < j < specs.len() ==> (#[trigger] specs[i]).id@ != (#[trigger] specs[j]).id@
    &&& forall|i: int|
        0 <= i < specs.len() ==> ((#[trigger] specs[i]).parent matches Some(parent) ==> (place_of(
            specs,
            parent@,
        ) matches Some(at) && i < at))
}

/// A path in a forest goes on to later declarations only, so one that is as
/// long as can be ends at the last.
proof fn forest_climb(specs: Seq<SurfaceSpec>, from: SurfaceId, fuel: nat)
    requires
        is_forest(specs),
        place_of(specs, from@) is Some,
    ensures
        ({
            let i = place_of(specs, from@)->0;
            let path = climb(specs, Some(from), fuel);
            &&& 0 <= i < specs.len()
            &&& path.len() <= specs.len() - i
            &&& path.len() == specs.len() - i ==> place_of(specs, path.last()@) == Some(
                specs.len() - 1,
            )
        }),
    decreases fuel,
{
    let i = place_of(specs, from@)->0;
    place_of_is_first(specs, from@);
    if fuel > 0 {
        first_is_place_of(specs, specs[i].id@, i);
        let rest = climb(specs, specs[i].parent, (fuel - 1) as nat);
        let path = seq![specs[i].id] + rest;
        match specs[i].parent {
            None => {
                assert(rest =~= Seq::empty());
            },
            Some(parent) => {
                forest_climb(specs, parent, (fuel - 1) as nat);
                if rest.len() > 0 {
                    assert(path.last() == rest.last());
                } else {
                    assert(path.len() == 1);
                }
            },
        }
    }
}

/// Nothing is wrong with a declaration of a forest.
proof fn forest_has_no_error_at(specs: Seq<SurfaceSpec>, i: int)
    requires
        is_forest(specs),
        0 <= i < specs.len(),
    ensures
        errors_at(specs, i).len() == 0,
{
    let earlier = specs.take(i).map_values(|s: SurfaceSpec| s.id);
    assert forall|k: int| 0 <= k < earlier.len() implies (#[trigger] earlier[k])@
        != specs[i].id@ by {
        assert(earlier[k] == specs[k].id);
    }
    first_is_place_of(specs, specs[i].id@, i);
    if specs[i].parent is Some {
        forest_climb(specs, specs[i].id, specs.len());
        let path = path_of(specs, specs[i].id);
        if path.len() == specs.len() {
            assert(specs[specs.len() - 1].parent is None) by {
                if let Some(parent) = specs[specs.len() - 1].parent {
                    place_of_is_first(specs, parent@);
                }
            }
        }
    }
}

/// The audit finds nothing exactly where the declarations make a forest in
/// probe order.
pub proof fn the_audit_is_clean_exactly_on_forests(specs: Seq<SurfaceSpec>)
    ensures
        audit_of(specs, specs.len() as int).len() == 0 <==> is_forest(specs),
{
    if is_forest(specs) {
        forest_audits_clean(specs, specs.len() as int);
    }
    if audit_of(specs, specs.len() as int).len() == 0 {
        assert forall|i: int, j: int| 0 <= i < j < specs.len() implies (#[trigger] specs[i]).id@
            != (#[trigger] specs[j]).id@ by {
            clean_forest_is_a_forest(specs, j, i);
        }
        assert forall|i: int| 0 <= i < specs.len() implies ((
        #[trigger] specs[i]).parent matches Some(parent) ==> (place_of(
            specs,
            parent@,
        ) matches Some(at) && i < at)) by {
            clean_forest_is_a_forest(specs, i, i);
        }
    }
}

proof fn forest_audits_clean(specs: Seq<SurfaceSpec>, n: int)
    requires
        is_forest(specs),
        0 <= n <= specs.len(),
    ensures
        audit_of(specs, n).len() == 0,
    decreases n,
{
    if n > 0 {
        forest_audits_clean(specs, n - 1);
        forest_has_no_error_at(specs, n - 1);
    }
}

/// The anchor is the first claimant, and whatever follows it is shadowed.
pub proof fn first_claimant_wins(specs: Seq<SurfaceSpec>, chain: FocusChain)
    ensures
        match first_claim(specs, chain) {
            Some(at) => {
                &&& 0 <= at < specs.len()
                &&& specs[at].probe.claims(chain) is Some
                &&& forall|j: int|
                    0 <= j < at ==> (#[trigger] specs[j]).probe.claims(chain) is None
                &&& claimants_of(specs, chain).len() > 0
                &&& claimants_of(specs, chain)[0] == (
                    specs[at].id,
                    specs[at].probe.claims(chain)->0,
                )
            },
            None => claimants_of(specs, chain).len() == 0,
        },
    decreases specs.len(),
{
    if specs.len() > 0 {
        let init = specs.drop_last();
        first_claimant_wins(init, chain);
        match first_claim(init, chain) {
            Some(at) => {
                assert(init[at] == specs[at]);
                assert forall|j: int| 0 <= j < at implies (#[trigger] specs[j]).probe.claims(
                    chain,
                ) is None by {
                    assert(init[j] == specs[j]);
                }
            },
            None => {
                assert forall|j: int| 0 <= j < init.len() implies (#[trigger] specs[j]).probe.claims(
                    chain,
                ) is None by {
                    if specs[j].probe.claims(chain) is Some {
                        claim_is_listed(init, chain, j);
                    }
                }
            },
        }
    }
}

/// A chain that some probe claims has a claimant.
pub proof fn claim_is_listed(specs: Seq<SurfaceSpec>, chain: FocusChain, j: int)
    requires
        0 <= j < specs.len(),
        specs[j].probe.claims(chain) is Some,
    ensures
        claimants_of(specs, chain).len() > 0,
    decreases specs.len(),
{
    if j < specs.len() - 1 {
        assert(specs.drop_last()[j] == specs[j]);
        claim_is_listed(specs.drop_last(), chain, j);
    }
}

} // verus!
