//! What a focused control can do, as opposed to what class it is.
//!
//! A control contributes the set of affordances it offers, an action declares
//! what it needs, and the resolver skips what a control cannot host.

use vstd::prelude::*;
use vstd::string::*;
use crate::text;
use crate::text::push_joined;

verus! {

/// Affordances a focused control offers, or an action requires.
#[derive(Debug, Clone, Copy, PartialEq, Eq, Hash, Structural)]
pub struct Caps {
    /// Move a vertical cursor: next or previous item, or scroll.
    pub vnav: bool,
    /// Expand and collapse nested items.
    pub hierarchy: bool,
    /// Open or activate the current item.
    pub activate: bool,
    /// Accept typed text: bare keys belong to the control.
    pub textentry: bool,
    /// Create, delete, rename and yank paths.
    pub fileops: bool,
}

/// What a control's class answers grant it.
pub open spec fn control_caps(
    tree: bool,
    item_list: bool,
    rich_text_label: bool,
    line_edit: bool,
    text_edit: bool,
) -> Caps {
    Caps {
        vnav: tree || item_list || rich_text_label,
        hierarchy: tree,
        activate: tree || item_list,
        textentry: line_edit || text_edit,
        fileops: false,
    }
}

/// Whether `is_class` can give these answers, each question asked only where
/// the answers before it leave it open.
pub open spec fn class_answers<F: Fn(&str) -> bool>(
    is_class: F,
    tree: bool,
    item_list: bool,
    rich_text_label: bool,
    line_edit: bool,
    text_edit: bool,
) -> bool {
    &&& call_ensures(is_class, ("Tree",), tree)
    &&& tree || call_ensures(is_class, ("ItemList",), item_list)
    &&& tree || item_list || call_ensures(is_class, ("RichTextLabel",), rich_text_label)
    &&& call_ensures(is_class, ("LineEdit",), line_edit)
    &&& line_edit || call_ensures(is_class, ("TextEdit",), text_edit)
}

impl Caps {
    /// No capability.
    pub open spec fn spec_empty() -> Caps {
        Caps {
            vnav: false,
            hierarchy: false,
            activate: false,
            textentry: false,
            fileops: false,
        }
    }

    /// No capability.
    pub fn empty() -> (r: Caps)
        ensures
            r == Caps::spec_empty(),
    {
        Caps {
            vnav: false,
            hierarchy: false,
            activate: false,
            textentry: false,
            fileops: false,
        }
    }

    /// Every capability.
    pub fn all() -> (r: Caps)
        ensures
            r.vnav && r.hierarchy && r.activate && r.textentry && r.fileops,
    {
        Caps { vnav: true, hierarchy: true, activate: true, textentry: true, fileops: true }
    }

    /// Vertical navigation alone.
    pub fn vnav() -> (r: Caps)
        ensures
            r == (Caps { vnav: true, ..Caps::spec_empty() }),
    {
        Caps { vnav: true, ..Caps::empty() }
    }

    /// Hierarchy alone.
    pub fn hierarchy() -> (r: Caps)
        ensures
            r == (Caps { hierarchy: true, ..Caps::spec_empty() }),
    {
        Caps { hierarchy: true, ..Caps::empty() }
    }

    /// Activation alone.
    pub fn activate() -> (r: Caps)
        ensures
            r == (Caps { activate: true, ..Caps::spec_empty() }),
    {
        Caps { activate: true, ..Caps::empty() }
    }

    /// Text entry alone.
    pub fn textentry() -> (r: Caps)
        ensures
            r == (Caps { textentry: true, ..Caps::spec_empty() }),
    {
        Caps { textentry: true, ..Caps::empty() }
    }

    /// File operations alone.
    pub fn fileops() -> (r: Caps)
        ensures
            r == (Caps { fileops: true, ..Caps::spec_empty() }),
    {
        Caps { fileops: true, ..Caps::empty() }
    }

    /// Whether there is no capability in the set.
    pub fn is_empty(self) -> (r: bool)
        ensures
            r == (self == Caps::spec_empty()),
    {
        self == Caps::empty()
    }

    /// Whether every capability in `needs` is in this set.
    pub open spec fn covers(self, needs: Caps) -> bool {
        &&& needs.vnav ==> self.vnav
        &&& needs.hierarchy ==> self.hierarchy
        &&& needs.activate ==> self.activate
        &&& needs.textentry ==> self.textentry
        &&& needs.fileops ==> self.fileops
    }

    /// Whether a control offering `self` can host an action requiring `needs`.
    ///
    /// Every required capability must be present; an action requiring nothing
    /// runs anywhere.
    pub fn satisfies(self, needs: Caps) -> (r: bool)
        ensures
            r == self.covers(needs),
    {
        (!needs.vnav || self.vnav) && (!needs.hierarchy || self.hierarchy) && (!needs.activate
            || self.activate) && (!needs.textentry || self.textentry) && (!needs.fileops
            || self.fileops)
    }

    /// Capabilities of a control, by what its class answers.
    ///
    /// `is_class` walks the class hierarchy, so a subclass answers for its
    /// base. A control is a tree before it is a list, and a list before it is
    /// a label.
    pub fn of_control<F: Fn(&str) -> bool>(is_class: F) -> (r: Caps)
        requires
            call_requires(is_class, ("Tree",)),
            call_requires(is_class, ("ItemList",)),
            call_requires(is_class, ("RichTextLabel",)),
            call_requires(is_class, ("LineEdit",)),
            call_requires(is_class, ("TextEdit",)),
        ensures
            exists|tree: bool, list: bool, label: bool, line: bool, edit: bool|
                {
                    &&& #[trigger] class_answers(is_class, tree, list, label, line, edit)
                    &&& r == control_caps(
                        tree,
                        !tree && list,
                        !tree && !list && label,
                        line,
                        !line && edit,
                    )
                },
    {
        let mut caps = Caps::empty();
        let tree = is_class("Tree");
        let mut list = false;
        let mut label = false;
        if tree {
            caps = caps.union(Caps::vnav()).union(Caps::hierarchy()).union(Caps::activate());
        } else {
            list = is_class("ItemList");
            if list {
                caps = caps.union(Caps::vnav()).union(Caps::activate());
            } else {
                label = is_class("RichTextLabel");
                if label {
                    // Scrolls rather than selecting.
                    caps = caps.union(Caps::vnav());
                }
            }
        }
        let line = is_class("LineEdit");
        let mut edit = false;
        if !line {
            edit = is_class("TextEdit");
        }
        if line || edit {
            caps = caps.union(Caps::textentry());
        }
        assert(class_answers(is_class, tree, list, label, line, edit));
        caps
    }

    /// The capabilities in either set.
    pub open spec fn spec_union(self, other: Caps) -> Caps {
        Caps {
            vnav: self.vnav || other.vnav,
            hierarchy: self.hierarchy || other.hierarchy,
            activate: self.activate || other.activate,
            textentry: self.textentry || other.textentry,
            fileops: self.fileops || other.fileops,
        }
    }

    /// The capabilities in either set.
    pub fn union(self, other: Caps) -> (r: Caps)
        ensures
            r == self.spec_union(other),
    {
        Caps {
            vnav: self.vnav || other.vnav,
            hierarchy: self.hierarchy || other.hierarchy,
            activate: self.activate || other.activate,
            textentry: self.textentry || other.textentry,
            fileops: self.fileops || other.fileops,
        }
    }
}

impl Default for Caps {
    /// No capability.
    fn default() -> (r: Caps)
        ensures
            r == Caps::spec_empty(),
    {
        Caps::empty()
    }
}

/// The names of the capabilities in a set, in declaration order.
pub open spec fn flag_names(c: Caps) -> Seq<Seq<char>> {
    let none = Seq::<Seq<char>>::empty();
    let a = if c.vnav {
        none.push("VNAV"@)
    } else {
        none
    };
    let b = if c.hierarchy {
        a.push("HIERARCHY"@)
    } else {
        a
    };
    let d = if c.activate {
        b.push("ACTIVATE"@)
    } else {
        b
    };
    let e = if c.textentry {
        d.push("TEXTENTRY"@)
    } else {
        d
    };
    if c.fileops {
        e.push("FILEOPS"@)
    } else {
        e
    }
}

/// How a capability set is printed: `Caps(VNAV | ACTIVATE)`, or `Caps(0x0)`
/// where there is nothing in it.
pub open spec fn caps_text(c: Caps) -> Seq<char> {
    "Caps("@ + (if flag_names(c).len() == 0 {
        "0x0"@
    } else {
        text::joined(flag_names(c), " | "@)
    }) + ")"@
}

impl Caps {
    /// Append the printed form of the set.
    pub fn write_to(self, out: &mut String)
        ensures
            final(out)@ == old(out)@ + caps_text(self),
    {
        let mut names: Vec<&str> = Vec::new();
        if self.vnav {
            names.push("VNAV");
        }
        if self.hierarchy {
            names.push("HIERARCHY");
        }
        if self.activate {
            names.push("ACTIVATE");
        }
        if self.textentry {
            names.push("TEXTENTRY");
        }
        if self.fileops {
            names.push("FILEOPS");
        }
        assert(text::views(names@) =~= flag_names(self));
        out.append("Caps(");
        if names.len() == 0 {
            out.append("0x0");
        } else {
            push_joined(out, &names, " | ");
        }
        out.append(")");
        assert(out@ =~= old(out)@ + caps_text(self));
    }

    /// The printed form of the set.
    pub fn debug_text(self) -> (r: String)
        ensures
            r@ == caps_text(self),
    {
        let mut out = String::new();
        self.write_to(&mut out);
        assert(Seq::<char>::empty() + caps_text(self) =~= caps_text(self));
        out
    }
}

/// Satisfaction is a subset test: it needs nothing of an action that needs
/// nothing, it is monotone in what a control offers, and it is transitive.
pub proof fn satisfaction_is_a_subset_test(a: Caps, b: Caps, c: Caps)
    ensures
        a.covers(Caps::spec_empty()),
        a.covers(a),
        a.covers(b) && b.covers(c) ==> a.covers(c),
        a.covers(c) ==> a.spec_union(b).covers(c),
{
}

} // verus!
