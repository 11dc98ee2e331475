//! A stock-keeping library: an inventory of products and bills drawn against it.
pub mod inventory;
pub mod billing;
pub mod text;
pub mod files;
pub mod menu;
