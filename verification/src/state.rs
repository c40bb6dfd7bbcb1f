pub mod history;
pub mod editor;
