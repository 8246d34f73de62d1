//! Turns CPU-side image assets into GPU-resident textures, frame by frame, and
//! keeps a pool of GPU textures that are reused instead of reallocated.

pub mod assets;
pub mod device;
pub mod fallback;
pub mod image;
pub mod keyboard;
pub mod loader;
pub mod plugin;
pub mod render;
pub mod texture_cache;
pub mod window;
