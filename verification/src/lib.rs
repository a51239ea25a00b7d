//! Clipboard history: what the daemon and its terminal client decide.
//!
//! The daemon's side is the normalisation of captures and the watcher that
//! asks for them (`clipboard`), the bounded store of entries, one for each
//! content digest (`db`, with what holds of its operations together in
//! `store_laws`), and the protocol on which clients are served (`ipc`). The
//! client's side is its browsing state (`ui`) and the formatting of
//! previews (`syntax`, `markup`). Reading the clipboard, files, the pipe
//! and the terminal is left to the caller, who hands over plain values.

pub mod clipboard;
pub mod config;
pub mod db;
pub mod ipc;
pub mod markup;
pub mod model;
pub mod paste;
pub mod store_laws;
pub mod syntax;
pub mod text;
pub mod ui;
