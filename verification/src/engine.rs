pub mod palette;
pub mod eraser;
pub mod merge;
pub mod symmetry;
pub mod socket;
pub mod constraints;
pub mod animation;
pub mod transform;
