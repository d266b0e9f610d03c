//! Tools for directory-based modules that are installed on a device over a
//! shell channel: laying out a new module project, packing a module into an
//! archive, the pipeline that pushes and stages it, and an index of the
//! device's file system.
//!
//! The library computes and decides; reading files, running commands and
//! printing are left to the caller.
//!
//! - `text`: fields, words and lines of a text.
//! - `order`: the order of names.
//! - `tree`: the trie of paths as a mathematical value, with what holds of it.
//! - `trie`: the trie itself, built from paths or from a listing, looked up
//!   and rendered.
//! - `devices`: whether a device listing shows a device.
//! - `archive`: the archive of a module's directory tree.
//! - `pipeline`: the deploy pipeline as a state machine.
//! - `scaffold`: the files and directories of a new project.
//! - `errors`: a list of error messages.

pub mod archive;
pub mod devices;
pub mod errors;
pub mod order;
pub mod pipeline;
pub mod scaffold;
pub mod text;
pub mod tree;
pub mod trie;
