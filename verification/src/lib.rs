pub mod order;
pub mod text;
pub mod model;
pub mod engine;
pub mod state;
pub mod export;
pub mod action_handler;
pub mod clipboard;
