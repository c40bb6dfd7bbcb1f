pub mod project;
pub mod sprite;
pub mod animation;
