//! Loading relocatable kernel modules: classifying and placing their
//! sections, applying their relocations and keeping the symbol registry;
//! and a small 3D frame buffer.
pub mod demangle;
pub mod error;
pub mod frame_buffer;
pub mod layout;
pub mod loader;
pub mod nano_core;
pub mod object;
pub mod placement;
pub mod program;
pub mod registry;
pub mod relocate;
pub mod text;
