//! A small voxel engine: a bounded three-dimensional field of colored
//! voxels with constructive solid geometry edits, collision and
//! visibility queries, derived lighting, a mipmap for distant detail,
//! a column-major map codec, and a two-dimensional overlay buffer.
//!
//! All engine state lives in an explicit [`engine::Engine`] value; there
//! are no process-wide globals. Coordinates are integers in
//! `[0, side)` per axis.

pub mod color;
pub mod math;
pub mod world;
pub mod engine;
pub mod ray;
pub mod clip;
pub mod sprite;
pub mod codec;
pub mod overlay;
pub mod render;
pub mod runs;

pub use color::Color;
pub use math::ivec3;
pub use world::{Voxel, World};
pub use engine::{CsgOperationType, Engine, EngineError, LightingMode, VisibilityResult};
pub use sprite::{SpriteOwnership, VxSprite};
pub use overlay::{FrameBuffer, Image, in_screen, set_frame_buffer, draw_line_2d};
pub use runs::Run;
pub use codec::{load_sprite, MapSnapshot, GridSnapshot};
pub use overlay::image_from_bytes;
