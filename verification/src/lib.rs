//! A clipboard history library: the history store, content heuristics,
//! clipboard payload parsing, and the decisions of the clipboard watcher and
//! the paste path.
use vstd::prelude::*;

pub mod clipboard;
pub mod commands;
pub mod detect;
pub mod hash;
pub mod images;
pub mod paste;
pub mod store;
pub mod store_laws;
pub mod text;
pub mod updater;
pub mod watcher;
pub mod window;
pub mod xclip;

verus! {

} // verus!
