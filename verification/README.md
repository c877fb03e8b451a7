# action_plane

The action plane of a modal-editing plugin for the Godot editor: a verified
library that decides what a keystroke means where the focus is.

A keystroke is decoded into at most three spellings. The focus chain, a sampled
list of controls from the focus owner upward, is classified into a path of
surfaces. Each spelling, what was typed before what is guessed, is looked up
along that path from the deepest surface on. The binding index says which verb
it means there, what the control must offer for it, and whether the key is used
up.

## Layout

| Path | Contents |
|------|----------|
| `src/key.rs`, `src/keys.rs` | keys, canonical spellings, left-hand sides, probe lists |
| `src/caps.rs`, `src/outcome.rs` | what a control offers, what a verb answers |
| `src/surface.rs`, `src/providers/` | focus chains, the forest of surfaces, the shipped surfaces |
| `src/action.rs`, `src/specs.rs`, `src/ports.rs` | parameters, the registry, the verbs and what they reach |
| `src/scripted.rs` | a control, a popup and a runner that answer from a script |
| `src/trie.rs`, `src/bind.rs`, `src/bind_laws.rs` | the binding index, its loader and its laws |
| `src/resolve.rs`, `src/sequence.rs` | one keystroke, and sequences of them |
| `src/introspect.rs` | the two reports: what is bound, and why a key does what it does |
| `src/report_laws.rs`, `src/render_laws.rs` | what the reports say line by line, and that a written rule reads back |
| `src/cursor.rs`, `src/shortcuts.rs` | caret tracking, the shortcut interface |
| `src/text.rs`, `src/search.rs` | text and searching in sequences |
| `app/` | the Godot side: loading the bindings, sampling the scene tree and performing effects |
| `tests/` | tests of the compiled library |

## What is proved

Every function of `src/` is verified with Verus. Each states its result over a
mathematical model: a chain of controls, a forest as a sequence of
declarations, an index as tables from key sequences to rules, a report as a
sequence of characters. The laws that span functions are public proof functions
beside the definitions they speak of. Among them: the shipped forest classifies
every chain, a guess never outranks what was typed and reaches only rules that
ask for it, of the surfaces that bind a spelling the deepest wins, nothing runs
that the control cannot host, a void rule always consumes, a buffer opens only
on a printed reservation and never in the editor, no line of configuration puts
a rule where it must not stand, installing a rule replaces it in place or
appends it, the last writer of a rule is the one that is found, no two rules are
written alike, and an explanation tells the verdict that resolving gives.

What is taken on trust is in `src/text.rs`: the compact string type and the
calls made on it, and `String::push`.

## What the caller provides

The editing engine's notation parser, its grammar and its mappings, the reader
of one configuration line and the layout remapping belong to the plugin. The
library takes what they answer as arguments. So it does with two tables for the
reports: `KeyNames`, which gives the engine's notation of every key that a
report can print, and `ChainFacts`, which gives the attached editor and its mode
as they are to be printed.

Shipped defaults must load. `load_defaults` and `load_text` tell what does not;
`builtin_index` and `apply_text` of shipped text ask that everything does.
