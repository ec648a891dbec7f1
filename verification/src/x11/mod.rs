//! The display side's decisions: key grabs, atoms, event handling.
pub mod atoms;
pub mod event;
pub mod grab_keys;
