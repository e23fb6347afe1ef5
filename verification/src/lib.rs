//! Game logic of a small voxel sandbox: the faces and geometry of unit
//! blocks, the world of blocks and which of their faces can be seen, the
//! choice of the closest hit along a ray, keyboard state and movement keys,
//! the crosshair image, and the parsing of the display settings.

pub mod block;
pub mod config;
pub mod crosshair;
pub mod faces;
pub mod hit;
pub mod input;
pub mod world;
