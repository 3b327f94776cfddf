pub mod entry;
pub mod layout;
pub mod listing;
pub mod render;
pub mod text;
