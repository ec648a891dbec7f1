//! Window management: state, layout, key bindings, bar.
pub mod autostart;
pub mod bar;
pub mod keys;
pub mod layout;
pub mod state;
pub mod widgets;
