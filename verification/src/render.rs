//! Rendering a text with a font into one raster.

use crate::assets::{Assets, Handle};
use crate::compose::{
    agrees, all_fit, compose, composed, glyph_fits, lemma_composed_size,
    lemma_glyph_outside_texture_fails, max_height, rescale, rescaled, rounded_quotient,
    total_width,
};
use crate::error::ImageFontPluginError;
use crate::font::{
    filter_text, glyph_of, glyph_rects, lemma_filter_text_concat,
    lemma_filter_text_drops_unsupported, lemma_filter_text_keeps_supported,
    lemma_filter_text_single, supported, ImageFont,
};
use crate::geometry::{GlyphRect, UVec2};
use crate::layout::{grid_char_map, lemma_grid_glyphs_lie_inside};
use crate::raster::{Image, ImageSampler, ImageView};
use vstd::prelude::*;

verus! {

/// Text rendered using an [`ImageFont`].
#[derive(Clone, Debug)]
pub struct ImageFontText {
    pub text: String,
    pub font: Handle<ImageFont>,
    /// If set, overrides the height the font is rendered at. This should be
    /// a whole multiple of the glyphs' own height for pixel accuracy.
    pub font_height: Option<u32>,
}

impl Default for ImageFontText {
    /// The empty text, in a font that no store holds, at the height of its
    /// glyphs.
    fn default() -> (request: Self)
        ensures
            request.text@ == Seq::<char>::empty(),
            request.font.id == u64::MAX,
            request.font_height is None,
    {
        ImageFontText { text: String::new(), font: Handle::default(), font_height: None }
    }
}

/// The content of every raster of a store.
pub open spec fn image_views(images: Map<u64, Image>) -> Map<u64, ImageView> {
    images.map_values(|image: Image| image@)
}

/// What rendering `text` gives with the glyphs `glyphs` of `texture`.
///
/// Characters without a glyph are left out. If none is left, the result is
/// the raster without pixels. Otherwise the glyphs are laid side by side,
/// and the result is resampled if a height is asked for.
pub open spec fn rendered_with(
    text: Seq<char>,
    font_height: Option<u32>,
    glyphs: Map<char, GlyphRect>,
    texture: ImageView,
) -> Result<ImageView, ImageFontPluginError> {
    let rects = glyph_rects(text, glyphs);
    if rects.len() == 0 {
        Ok(ImageView::empty())
    } else {
        match composed(rects, texture) {
            Err(error) => Err(error),
            Ok(native) => match font_height {
                None => Ok(native),
                Some(height) => rescaled(native, height),
            },
        }
    }
}

/// What rendering `request` gives when the stores hold `fonts` and `images`.
pub open spec fn rendered(
    request: ImageFontText,
    fonts: Map<u64, ImageFont>,
    images: Map<u64, ImageView>,
) -> Result<ImageView, ImageFontPluginError> {
    if !fonts.contains_key(request.font.id) {
        Err(ImageFontPluginError::MissingImageFontAsset)
    } else {
        let font = fonts[request.font.id];
        if !images.contains_key(font.texture.id) {
            Err(ImageFontPluginError::MissingTextureAsset)
        } else {
            rendered_with(
                request.text@,
                request.font_height,
                font.glyphs(),
                images[font.texture.id],
            )
        }
    }
}

/// The same request without a height of its own: the text is to be rendered
/// at the height of its glyphs.
pub open spec fn at_native_height(request: ImageFontText) -> ImageFontText {
    ImageFontText { font_height: None, ..request }
}

/// Renders `text` with the glyphs that `font` cuts out of `texture`.
pub fn render_with(text: &str, font_height: Option<u32>, font: &ImageFont, texture: &Image) -> (out:
    Result<Image, ImageFontPluginError>)
    ensures
        agrees(out, rendered_with(text@, font_height, font.glyphs(), texture@)),
        out matches Ok(image) ==> image@.is_exact(),
        out matches Ok(image) ==> rendered_with(text@, None, font.glyphs(), texture@) matches Ok(
            native,
        ) && image@.drawn_from(native),
{
    let rects = font.glyphs_of(text);
    if rects.len() == 0 {
        proof {
            ImageView::empty().lemma_drawn_from_itself();
        }
        return Ok(Image { width: 0, height: 0, data: Vec::new(), sampler: ImageSampler::Default });
    }
    let native = match compose(&rects, texture) {
        Ok(native) => native,
        Err(error) => {
            return Err(error);
        },
    };
    proof {
        native@.lemma_drawn_from_itself();
    }
    match font_height {
        None => Ok(native),
        Some(height) => rescale(&native, height),
    }
}

/// Renders the text inside the [`ImageFontText`] to a single output image.
pub fn render_text(
    image_font_text: &ImageFontText,
    image_fonts: &Assets<ImageFont>,
    images: &Assets<Image>,
) -> (out: Result<Image, ImageFontPluginError>)
    ensures
        agrees(out, rendered(*image_font_text, image_fonts@, image_views(images@))),
        out matches Ok(image) ==> image@.is_exact(),
        out matches Ok(image) ==> rendered(
            at_native_height(*image_font_text),
            image_fonts@,
            image_views(images@),
        ) matches Ok(native) && image@.drawn_from(native),
{
    let image_font = match image_fonts.get(&image_font_text.font) {
        Some(font) => font,
        None => {
            return Err(ImageFontPluginError::MissingImageFontAsset);
        },
    };
    let font_texture = match images.get(&image_font.texture) {
        Some(texture) => texture,
        None => {
            return Err(ImageFontPluginError::MissingTextureAsset);
        },
    };
    render_with(
        image_font_text.text.as_str(),
        image_font_text.font_height,
        image_font,
        font_texture,
    )
}

/// A text all of whose characters have a glyph is rendered, at the height
/// of its glyphs, as wide as the glyphs of its characters together and as
/// tall as the tallest of them.
pub proof fn lemma_rendered_size(text: Seq<char>, glyphs: Map<char, GlyphRect>, texture: ImageView)
    requires
        text.len() > 0,
        forall|i: int| 0 <= i < text.len() ==> glyphs.contains_key(#[trigger] text[i]),
    ensures
        rendered_with(text, None, glyphs, texture) matches Ok(image) ==> {
            &&& image.width == total_width(text.map_values(glyph_of(glyphs)))
            &&& image.height == max_height(text.map_values(glyph_of(glyphs)))
            &&& image.data.len() == 4 * image.width * image.height
        },
{
    lemma_filter_text_keeps_supported(text, glyphs);
    lemma_composed_size(glyph_rects(text, glyphs), texture);
}

/// A text with a character that has a glyph is rendered, at a height that
/// was asked for, as tall as asked, and as wide as keeps the proportions
/// that it has at the height of its glyphs: that width times the new height
/// over that height, rounded to the nearest whole number.
pub proof fn lemma_rendered_at_height(
    text: Seq<char>,
    height: u32,
    glyphs: Map<char, GlyphRect>,
    texture: ImageView,
)
    requires
        glyph_rects(text, glyphs).len() > 0,
    ensures
        rendered_with(text, Some(height), glyphs, texture) matches Ok(image) ==> {
            &&& rendered_with(text, None, glyphs, texture) matches Ok(native)
            &&& native.height > 0
            &&& image.height == height
            &&& image.width == rounded_quotient(
                (native.width * height) as nat,
                native.height as nat,
            )
        },
{
}

/// A text without a character that has a glyph, the empty text among them,
/// is rendered to the raster without pixels, whatever the font, the
/// texture and the height asked for.
pub proof fn lemma_nothing_to_render(
    text: Seq<char>,
    font_height: Option<u32>,
    glyphs: Map<char, GlyphRect>,
    texture: ImageView,
)
    requires
        forall|i: int| 0 <= i < text.len() ==> !glyphs.contains_key(#[trigger] text[i]),
    ensures
        rendered_with(text, font_height, glyphs, texture) == Ok::<
            ImageView,
            ImageFontPluginError,
        >(ImageView::empty()),
        ImageView::empty().width == 0,
        ImageView::empty().height == 0,
        ImageView::empty().data.len() == 0,
{
    lemma_filter_text_drops_unsupported(text, glyphs);
}

/// Two texts of which the same characters are left render alike.
pub proof fn lemma_rendering_sees_filtered_text(
    first: Seq<char>,
    second: Seq<char>,
    font_height: Option<u32>,
    glyphs: Map<char, GlyphRect>,
    texture: ImageView,
)
    requires
        filter_text(first, glyphs) == filter_text(second, glyphs),
    ensures
        rendered_with(first, font_height, glyphs, texture) == rendered_with(
            second,
            font_height,
            glyphs,
            texture,
        ),
{
}

/// A character without a glyph, wherever it stands in a text, changes
/// nothing of what is rendered.
pub proof fn lemma_unsupported_character_is_dropped(
    before: Seq<char>,
    c: char,
    after: Seq<char>,
    font_height: Option<u32>,
    glyphs: Map<char, GlyphRect>,
    texture: ImageView,
)
    requires
        !glyphs.contains_key(c),
    ensures
        filter_text(before + seq![c] + after, glyphs) == filter_text(before + after, glyphs),
        rendered_with(before + seq![c] + after, font_height, glyphs, texture) == rendered_with(
            before + after,
            font_height,
            glyphs,
            texture,
        ),
{
    lemma_filter_text_concat(before + seq![c], after, glyphs);
    lemma_filter_text_concat(before, seq![c], glyphs);
    lemma_filter_text_single(c, glyphs);
    lemma_filter_text_concat(before, after, glyphs);
    assert(filter_text(before, glyphs) + Seq::<char>::empty() =~= filter_text(before, glyphs));
}

/// A text that uses a glyph whose rectangle reaches outside the texture
/// is not rendered: the copy fails, whatever height is asked for.
pub proof fn lemma_rectangle_outside_texture_fails(
    text: Seq<char>,
    font_height: Option<u32>,
    glyphs: Map<char, GlyphRect>,
    texture: ImageView,
    i: int,
)
    requires
        texture.is_readable(),
        0 <= i < glyph_rects(text, glyphs).len(),
        !glyph_fits(glyph_rects(text, glyphs)[i], texture),
    ensures
        rendered_with(text, font_height, glyphs, texture) == Err::<
            ImageView,
            ImageFontPluginError,
        >(ImageFontPluginError::CopyFailure),
{
    lemma_glyph_outside_texture_fails(glyph_rects(text, glyphs), texture, i);
}

/// Once a font was put in the place of the one that a request refers to,
/// the request is rendered with the new font's glyphs and texture alone.
pub proof fn lemma_font_replaced(
    request: ImageFontText,
    fonts: Map<u64, ImageFont>,
    images: Map<u64, ImageView>,
    font: ImageFont,
)
    ensures
        rendered(request, fonts.insert(request.font.id, font), images) == if images.contains_key(
            font.texture.id,
        ) {
            rendered_with(
                request.text@,
                request.font_height,
                font.glyphs(),
                images[font.texture.id],
            )
        } else {
            Err::<ImageView, ImageFontPluginError>(ImageFontPluginError::MissingTextureAsset)
        },
{
}

/// With the glyphs that a grid description resolves to for a texture of
/// some size, and a texture of that size, no copy fails: every glyph lies
/// inside the texture.
pub proof fn lemma_grid_glyphs_are_copied(
    description: Seq<char>,
    size: UVec2,
    text: Seq<char>,
    font_height: Option<u32>,
    texture: ImageView,
)
    requires
        grid_char_map(description, size) is Ok,
        texture.width == size.x,
        texture.height == size.y,
    ensures
        grid_char_map(description, size) matches Ok(glyphs) && rendered_with(
            text,
            font_height,
            glyphs,
            texture,
        ) != Err::<ImageView, ImageFontPluginError>(ImageFontPluginError::CopyFailure),
{
    let glyphs = grid_char_map(description, size)->Ok_0;
    let kept = filter_text(text, glyphs);
    let rects = glyph_rects(text, glyphs);
    assert forall|i: int| 0 <= i < rects.len() implies glyph_fits(#[trigger] rects[i], texture) by {
        text.lemma_filter_pred(supported(glyphs), i);
        assert(glyphs.contains_key(kept[i]));
        lemma_grid_glyphs_lie_inside(description, size, kept[i]);
    }
    assert(all_fit(rects, texture));
}

} // verus!
