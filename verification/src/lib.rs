//! The action plane of a modal-editing plugin for the Godot editor.
//!
//! A keystroke is decoded into a small set of spellings ([`keys`]), the focus
//! chain is classified into a surface ([`surface`]), and the binding table
//! ([`bind`]) says which verb the keystroke means there. This crate holds that
//! decision procedure; the editor calls it and performs what it decides.
#![allow(unused_imports)]

pub mod action;
pub mod bind;
pub mod bind_laws;
pub mod caps;
pub mod cursor;
pub mod introspect;
pub mod key;
pub mod key_laws;
pub mod keys;
pub mod listing_laws;
pub mod load_laws;
pub mod outcome;
pub mod ports;
pub mod providers;
pub mod render_laws;
pub mod report_laws;
pub mod resolve;
pub mod scripted;
pub mod search;
pub mod sequence;
pub mod shortcuts;
pub mod specs;
pub mod surface;
pub mod surface_laws;
pub mod text;
pub mod text_laws;
pub mod trie;
pub mod verb_laws;
pub mod walk_laws;
