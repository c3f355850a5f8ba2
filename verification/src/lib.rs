//! Glyph preparation and frame bookkeeping for GPU vector text.
//!
//! Glyph outlines are packed into blobs that a fragment shader evaluates, so
//! text stays sharp at every size. This crate decides what goes into the
//! blobs, where they lie in the atlas, what a frame draws and in what order.
//! Floating-point geometry and the graphics device stay outside: coordinates
//! come in as bit patterns, and uploads and draws go out as plain values.

pub mod area_cache;
pub mod area_laws;
pub mod atlas_laws;
pub mod band;
pub mod band_laws;
pub mod band_lists;
pub mod band_reading;
pub mod border;
pub mod border_upload;
pub mod bytes;
pub mod color_laws;
pub mod colr;
pub mod commands;
pub mod cubic;
pub mod culling;
pub mod device_laws;
pub mod draw_order;
pub mod emit;
pub mod font;
pub mod frames;
pub mod fxmap;
pub mod glyph_cache;
pub mod instance;
pub mod keys;
pub mod number_laws;
pub mod outline;
pub mod outline_laws;
pub mod pen;
pub mod placed;
pub mod prep;
pub mod prepare;
pub mod renderer_laws;
pub mod scalar;
pub mod shader;
pub mod shown;
pub mod text_atlas;
pub mod text_renderer;
pub mod texture;
pub mod types;
pub mod upload;
pub mod words;

pub use glyph_cache::GlyphKey;
pub use instance::GlyphInstance;
pub use text_atlas::TextAtlas;
pub use text_renderer::TextRenderer;
pub use types::{
    ColorMode, PrepareError, RenderError, Resolution, TextArea, TextBorder, TextBounds,
};
