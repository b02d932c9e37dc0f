//! Text rendering from bitmap fonts.
//!
//! A font is a texture cut into one rectangle per character. The crate
//! resolves a layout description into such rectangles and composes the glyphs
//! of a string, left to right, into one RGBA raster.
//!
//! - [`layout`] resolves a description of a font into the rectangle of each
//!   character's glyph, and [`font`] makes a font of them.
//! - [`compose`] lays glyphs side by side and rescales the result;
//!   [`render`] does so for a text, a font and a texture, given directly or
//!   looked up in the stores of [`assets`].
//! - [`systems`] keeps rendered texts up to date when texts or fonts change.
//! - [`raster`] holds the raster type and the calls into the `image` crate,
//!   which does the pixel work.

pub mod assets;
pub mod char_map;
pub mod compose;
pub mod error;
pub mod font;
pub mod geometry;
pub mod layout;
pub mod raster;
pub mod render;
pub mod sequences;
pub mod systems;

pub use crate::assets::{AssetEvent, Assets, Handle};
pub use crate::char_map::CharMap;
pub use crate::error::{ImageFontLoadError, ImageFontPluginError};
pub use crate::font::{ImageFont, TextureAtlasLayout};
pub use crate::geometry::{GlyphRect, URect, UVec2};
pub use crate::layout::ImageFontLayout;
pub use crate::raster::{Image, ImageSampler};
pub use crate::render::{render_text, render_with, ImageFontText};
pub use crate::systems::{
    mark_changed_fonts_as_dirty, render_sprites, render_ui_images, ImageFontBundle,
    ImageFontUiBundle, UiImage,
};
