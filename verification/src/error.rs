//! What can go wrong while a font is resolved or a text is rendered.

use vstd::prelude::*;
use vstd::string::StringExecFns;

verus! {

/// Errors that can show up during rendering.
#[derive(Clone, Copy, Debug, PartialEq, Eq, Structural)]
#[non_exhaustive]
pub enum ImageFontPluginError {
    /// The text names a font that the font store does not hold.
    MissingImageFontAsset,
    /// The font names a texture that the image store does not hold.
    MissingTextureAsset,
    /// A pixel buffer could not be set up: the texture's data is shorter than
    /// its size demands, or the raster to produce is larger than a buffer
    /// can be.
    UnknownError,
    /// A glyph's rectangle reaches outside the texture.
    CopyFailure,
}

impl ImageFontPluginError {
    /// The text of [`message`](Self::message).
    pub open spec fn spec_message(self) -> Seq<char> {
        match self {
            ImageFontPluginError::MissingImageFontAsset => "ImageFont asset not loaded"@,
            ImageFontPluginError::MissingTextureAsset => "Font texture asset not loaded"@,
            ImageFontPluginError::UnknownError => "internal error"@,
            ImageFontPluginError::CopyFailure => "failed to copy from atlas"@,
        }
    }

    /// A short description of the error for a log or a user.
    pub fn message(&self) -> (text: String)
        ensures
            text@ == self.spec_message(),
    {
        match self {
            ImageFontPluginError::MissingImageFontAsset => String::from_str(
                "ImageFont asset not loaded",
            ),
            ImageFontPluginError::MissingTextureAsset => String::from_str(
                "Font texture asset not loaded",
            ),
            ImageFontPluginError::UnknownError => String::from_str("internal error"),
            ImageFontPluginError::CopyFailure => String::from_str("failed to copy from atlas"),
        }
    }
}

/// Errors that can show up while a font's layout is resolved.
#[derive(Clone, Copy, Debug, PartialEq, Eq, Structural)]
#[non_exhaustive]
pub enum ImageFontLoadError {
    /// A grid description without a single character in it.
    EmptyDescription,
}

impl ImageFontLoadError {
    /// The text of [`message`](Self::message).
    pub open spec fn spec_message(self) -> Seq<char> {
        match self {
            ImageFontLoadError::EmptyDescription => {
                "can't create character map from an empty string"@
            },
        }
    }

    /// A short description of the error for a log or a user.
    pub fn message(&self) -> (text: String)
        ensures
            text@ == self.spec_message(),
    {
        match self {
            ImageFontLoadError::EmptyDescription => String::from_str(
                "can't create character map from an empty string",
            ),
        }
    }
}

} // verus!
