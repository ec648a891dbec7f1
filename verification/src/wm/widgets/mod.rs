//! The bar's widgets.
pub mod clock;
pub mod workspaces;
