//! Laying glyphs side by side into one raster, and rescaling the result.

use crate::error::ImageFontPluginError;
use crate::geometry::GlyphRect;
use crate::raster::{
    buffer_len, can_allocate, checked_buffer_len, copy_block, lemma_pixel_in_data,
    max_buffer_len, new_blank, resampled, resize_nearest, row_fits, Blit, Image, ImageSampler,
    ImageView,
};
use crate::sequences::lemma_take_step;
use vstd::arithmetic::div_mod::{lemma_fundamental_div_mod, lemma_fundamental_div_mod_converse};
use vstd::prelude::*;

verus! {

/// The sum of the widths of `rects`.
pub open spec fn total_width(rects: Seq<GlyphRect>) -> nat
    decreases rects.len(),
{
    if rects.len() == 0 {
        0
    } else {
        total_width(rects.drop_last()) + rects.last().spec_width()
    }
}

/// The largest of the heights of `rects`, zero if there is none.
pub open spec fn max_height(rects: Seq<GlyphRect>) -> nat
    decreases rects.len(),
{
    if rects.len() == 0 {
        0
    } else {
        let before = max_height(rects.drop_last());
        let height = rects.last().spec_height();
        if height > before {
            height
        } else {
            before
        }
    }
}

/// The glyph's rectangle lies inside the texture.
pub open spec fn glyph_fits(rect: GlyphRect, texture: ImageView) -> bool {
    &&& rect.min_x + rect.spec_width() <= texture.width
    &&& rect.min_y + rect.spec_height() <= texture.height
}

/// Every one of `rects` lies inside the texture.
pub open spec fn all_fit(rects: Seq<GlyphRect>, texture: ImageView) -> bool {
    forall|i: int| 0 <= i < rects.len() ==> glyph_fits(#[trigger] rects[i], texture)
}

/// The copy that puts a glyph at the top of the output, `cursor` pixels from
/// its left edge.
pub open spec fn glyph_blit(rect: GlyphRect, cursor: nat) -> Blit {
    Blit {
        src_x: rect.min_x as int,
        src_y: rect.min_y as int,
        width: rect.spec_width() as int,
        height: rect.spec_height() as int,
        dst_x: cursor as int,
        dst_y: 0,
    }
}

/// The output after the glyphs `rects` were copied into a blank raster of
/// the given size, one after the other, each to the right of the one before.
pub open spec fn composed_canvas(
    rects: Seq<GlyphRect>,
    texture: ImageView,
    width: u32,
    height: u32,
) -> ImageView
    decreases rects.len(),
{
    if rects.len() == 0 {
        ImageView { sampler: ImageSampler::Nearest, ..ImageView::blank(width, height) }
    } else {
        let before = composed_canvas(rects.drop_last(), texture, width, height);
        let blit = glyph_blit(rects.last(), total_width(rects.drop_last()));
        ImageView { data: blit.apply(before, texture), ..before }
    }
}

/// The raster that holds the glyphs `rects` of `texture` side by side, or
/// the reason why there is none.
///
/// The raster is as wide as all the glyphs together and as tall as the
/// tallest of them; glyphs are aligned at the top, and what no glyph covers
/// is zero.
pub open spec fn composed(rects: Seq<GlyphRect>, texture: ImageView) -> Result<
    ImageView,
    ImageFontPluginError,
> {
    if !texture.is_readable() {
        Err(ImageFontPluginError::UnknownError)
    } else if !all_fit(rects, texture) {
        Err(ImageFontPluginError::CopyFailure)
    } else if total_width(rects) > u32::MAX || !can_allocate(
        total_width(rects) as int,
        max_height(rects) as int,
    ) {
        Err(ImageFontPluginError::UnknownError)
    } else {
        Ok(
            composed_canvas(
                rects,
                texture,
                total_width(rects) as u32,
                max_height(rects) as u32,
            ),
        )
    }
}

/// The four channel bytes of a pixel that no glyph has touched.
pub open spec fn untouched() -> Seq<u8> {
    seq![0u8, 0u8, 0u8, 0u8]
}

/// `numerator / denominator`, rounded to the nearest whole number, halves
/// upwards.
pub open spec fn rounded_quotient(numerator: nat, denominator: nat) -> nat
    recommends
        denominator > 0,
{
    (2 * numerator + denominator) / (2 * denominator)
}

/// The width that keeps the proportions of a `width` by `height` raster when
/// its height becomes `target_height`.
pub open spec fn spec_scaled_width(width: u32, height: u32, target_height: u32) -> nat
    recommends
        height > 0,
{
    rounded_quotient((width * target_height) as nat, height as nat)
}

/// The size `new_width` by `new_height` can be reached by resampling a
/// raster `width` pixels wide: the buffers that this takes can be allocated.
pub open spec fn can_resample(width: u32, new_width: nat, new_height: u32) -> bool {
    &&& new_width <= u32::MAX
    &&& 16 * width * new_height <= max_buffer_len()
    &&& can_allocate(new_width as int, new_height as int)
}

/// `image` resampled to the height `target_height` with its proportions
/// kept, or the reason why that cannot be done.
pub open spec fn rescaled(image: ImageView, target_height: u32) -> Result<
    ImageView,
    ImageFontPluginError,
> {
    let new_width = spec_scaled_width(image.width, image.height, target_height);
    if !image.is_readable() || image.height == 0 || !can_resample(
        image.width,
        new_width,
        target_height,
    ) {
        Err(ImageFontPluginError::UnknownError)
    } else {
        Ok(
            ImageView {
                width: new_width as u32,
                height: target_height,
                data: resampled(
                    image.data,
                    image.width,
                    image.height,
                    new_width as u32,
                    target_height,
                ),
                sampler: image.sampler,
            },
        )
    }
}

/// Whether `result` is what `expected` says: the same error, or a raster
/// with the same content.
pub open spec fn agrees(
    result: Result<Image, ImageFontPluginError>,
    expected: Result<ImageView, ImageFontPluginError>,
) -> bool {
    match result {
        Ok(image) => expected == Ok::<ImageView, ImageFontPluginError>(image@),
        Err(error) => expected == Err::<ImageView, ImageFontPluginError>(error),
    }
}

/// The widths of fewer glyphs come to no more than those of more.
pub proof fn lemma_prefix_width_monotone(rects: Seq<GlyphRect>, fewer: int, more: int)
    requires
        0 <= fewer <= more <= rects.len(),
    ensures
        total_width(rects.take(fewer)) <= total_width(rects.take(more)),
    decreases more - fewer,
{
    if fewer < more {
        lemma_take_step(rects, more - 1);
        lemma_prefix_width_monotone(rects, fewer, more - 1);
    }
}

/// No glyph is taller than the tallest.
pub proof fn lemma_height_bounded(rects: Seq<GlyphRect>, i: int)
    requires
        0 <= i < rects.len(),
    ensures
        rects[i].spec_height() <= max_height(rects),
    decreases rects.len(),
{
    if i < rects.len() - 1 {
        lemma_height_bounded(rects.drop_last(), i);
    }
}

/// Copies the glyphs `rects` of `texture` side by side into a new raster.
pub fn compose(rects: &Vec<GlyphRect>, texture: &Image) -> (out: Result<
    Image,
    ImageFontPluginError,
>)
    ensures
        agrees(out, composed(rects@, texture@)),
        out matches Ok(image) ==> image@.is_exact(),
{
    if !texture.holds_pixels() {
        return Err(ImageFontPluginError::UnknownError);
    }
    let ghost all = rects@;
    let mut width: u64 = 0;
    let mut height: u64 = 0;
    let mut too_wide = false;
    let mut i: usize = 0;
    while i < rects.len()
        invariant
            all == rects@,
            0 <= i <= all.len(),
            texture@.is_readable(),
            all_fit(all.take(i as int), texture@),
            too_wide ==> total_width(all.take(i as int)) > u32::MAX,
            !too_wide ==> width == total_width(all.take(i as int)) && width <= u32::MAX,
            height == max_height(all.take(i as int)),
            height <= texture.height,
        decreases all.len() - i,
    {
        let rect = rects[i];
        let w = rect.width();
        let h = rect.height();
        proof {
            lemma_take_step(all, i as int);
        }
        if rect.min_x > texture.width as u64 || w > texture.width as u64 - rect.min_x || rect.min_y
            > texture.height as u64 || h > texture.height as u64 - rect.min_y {
            assert(!glyph_fits(all[i as int], texture@));
            return Err(ImageFontPluginError::CopyFailure);
        }
        assert(glyph_fits(all[i as int], texture@));
        assert(all_fit(all.take(i + 1), texture@)) by {
            assert forall|j: int| 0 <= j < i + 1 implies glyph_fits(
                #[trigger] all.take(i + 1)[j],
                texture@,
            ) by {
                if j < i {
                    assert(all.take(i + 1)[j] == all.take(i as int)[j]);
                }
            }
        }
        if !too_wide {
            width = width + w;
            if width > u32::MAX as u64 {
                too_wide = true;
            }
        }
        if h > height {
            height = h;
        }
        i = i + 1;
    }
    assert(all.take(all.len() as int) =~= all);
    if too_wide {
        return Err(ImageFontPluginError::UnknownError);
    }
    let out_width = width as u32;
    let out_height = height as u32;
    if checked_buffer_len(out_width, out_height).is_none() {
        return Err(ImageFontPluginError::UnknownError);
    }
    let mut out = new_blank(out_width, out_height);
    out.sampler = ImageSampler::Nearest;
    let mut cursor: u32 = 0;
    let mut k: usize = 0;
    while k < rects.len()
        invariant
            all == rects@,
            0 <= k <= all.len(),
            all_fit(all, texture@),
            texture@.is_readable(),
            row_fits(out_width as int),
            out_width == total_width(all),
            out_height == max_height(all),
            cursor == total_width(all.take(k as int)),
            out@ == composed_canvas(all.take(k as int), texture@, out_width, out_height),
            out.width == out_width,
            out.height == out_height,
            out@.is_exact(),
        decreases all.len() - k,
    {
        let rect = rects[k];
        proof {
            lemma_take_step(all, k as int);
            lemma_prefix_width_monotone(all, k as int + 1, all.len() as int);
            assert(all.take(all.len() as int) =~= all);
            lemma_height_bounded(all, k as int);
            assert(glyph_fits(all[k as int], texture@));
        }
        let w = rect.width() as u32;
        let h = rect.height() as u32;
        let copied = copy_block(
            &mut out,
            texture,
            rect.min_x as u32,
            rect.min_y as u32,
            w,
            h,
            cursor,
            0,
        );
        match copied {
            Ok(()) => {},
            Err(_) => {
                return Err(ImageFontPluginError::CopyFailure);
            },
        }
        cursor = cursor + w;
        k = k + 1;
    }
    assert(all.take(all.len() as int) =~= all);
    Ok(out)
}

/// The quotient rounded to the nearest whole number is the quotient rounded
/// down, plus one where the remainder is at least half the denominator.
pub proof fn lemma_rounded_quotient(numerator: nat, denominator: nat)
    requires
        denominator > 0,
    ensures
        rounded_quotient(numerator, denominator) == numerator / denominator + if 2 * (numerator
            % denominator) >= denominator {
            1int
        } else {
            0int
        },
{
    let n = numerator as int;
    let d = denominator as int;
    let q = n / d;
    let r = n % d;
    lemma_fundamental_div_mod(n, d);
    if 2 * r >= d {
        assert(2 * n + d == (q + 1) * (2 * d) + (2 * r - d)) by (nonlinear_arith)
            requires
                n == d * q + r,
        ;
        lemma_fundamental_div_mod_converse(2 * n + d, 2 * d, q + 1, 2 * r - d);
    } else {
        assert(2 * n + d == q * (2 * d) + (2 * r + d)) by (nonlinear_arith)
            requires
                n == d * q + r,
        ;
        lemma_fundamental_div_mod_converse(2 * n + d, 2 * d, q, 2 * r + d);
    }
}

/// The width that keeps the proportions of a `width` by `height` raster when
/// its height becomes `target_height`; `None` where the raster has no height
/// or the width would not fit.
pub fn scaled_width(width: u32, height: u32, target_height: u32) -> (new_width: Option<u32>)
    ensures
        new_width is Some <==> height > 0 && spec_scaled_width(width, height, target_height)
            <= u32::MAX,
        new_width matches Some(w) ==> w == spec_scaled_width(width, height, target_height),
{
    if height == 0 {
        return None;
    }
    assert(width * target_height <= 0xffff_ffff * 0xffff_ffff) by (nonlinear_arith)
        requires
            width <= 0xffff_ffff,
            target_height <= 0xffff_ffff,
    ;
    let product: u64 = width as u64 * target_height as u64;
    let quotient: u64 = product / height as u64;
    let remainder: u64 = product % height as u64;
    proof {
        lemma_rounded_quotient(product as nat, height as nat);
    }
    let rounded: u64 = if 2 * remainder >= height as u64 {
        quotient + 1
    } else {
        quotient
    };
    if rounded > u32::MAX as u64 {
        None
    } else {
        Some(rounded as u32)
    }
}

/// Resamples `image` to the height `target_height`, keeping its proportions
/// and taking every pixel from the nearest pixel of `image`.
pub fn rescale(image: &Image, target_height: u32) -> (out: Result<Image, ImageFontPluginError>)
    ensures
        agrees(out, rescaled(image@, target_height)),
        out matches Ok(scaled) ==> scaled@.is_exact() && scaled@.drawn_from(image@),
{
    if !image.holds_pixels() {
        return Err(ImageFontPluginError::UnknownError);
    }
    let new_width = match scaled_width(image.width, image.height, target_height) {
        Some(w) => w,
        None => {
            return Err(ImageFontPluginError::UnknownError);
        },
    };
    assert(image.width * target_height <= 0xffff_ffff * 0xffff_ffff) by (nonlinear_arith)
        requires
            image.width <= 0xffff_ffff,
            target_height <= 0xffff_ffff,
    ;
    let between: u64 = image.width as u64 * target_height as u64;
    assert(16 * between == 16 * image.width * target_height) by (nonlinear_arith)
        requires
            between == image.width * target_height,
    ;
    let limit: u64 = isize::MAX as u64;
    if between > limit / 16 {
        return Err(ImageFontPluginError::UnknownError);
    }
    if checked_buffer_len(new_width, target_height).is_none() {
        return Err(ImageFontPluginError::UnknownError);
    }
    let scaled = resize_nearest(image, new_width, target_height);
    proof {
        if image.width == 0 {
            assert(rounded_quotient(0, image.height as nat) == 0) by (nonlinear_arith)
                requires
                    image.height > 0,
            ;
            assert(image.width * target_height == 0) by (nonlinear_arith)
                requires
                    image.width == 0,
            ;
            assert(scaled.width == 0);
        }
    }
    Ok(scaled)
}

/// The tallest glyph's height is the height of one of the glyphs.
pub proof fn lemma_max_height_is_attained(rects: Seq<GlyphRect>)
    ensures
        rects.len() == 0 ==> max_height(rects) == 0,
        rects.len() > 0 ==> exists|i: int|
            0 <= i < rects.len() && (#[trigger] rects[i]).spec_height() == max_height(rects),
    decreases rects.len(),
{
    if rects.len() > 0 {
        let shorter = rects.drop_last();
        lemma_max_height_is_attained(shorter);
        if rects.last().spec_height() > max_height(shorter) || shorter.len() == 0 {
            assert(rects[rects.len() - 1].spec_height() == max_height(rects));
        } else {
            let i = choose|i: int|
                0 <= i < shorter.len() && (#[trigger] shorter[i]).spec_height() == max_height(
                    shorter,
                );
            assert(rects[i].spec_height() == max_height(rects));
        }
    }
}

/// Copying glyphs into a canvas changes neither its size nor the length of
/// its data, and leaves it marked for nearest-neighbour sampling.
pub proof fn lemma_canvas_size(rects: Seq<GlyphRect>, texture: ImageView, width: u32, height: u32)
    ensures
        composed_canvas(rects, texture, width, height).width == width,
        composed_canvas(rects, texture, width, height).height == height,
        composed_canvas(rects, texture, width, height).sampler == ImageSampler::Nearest,
        composed_canvas(rects, texture, width, height).data.len() == buffer_len(
            width as int,
            height as int,
        ),
    decreases rects.len(),
{
    if rects.len() > 0 {
        lemma_canvas_size(rects.drop_last(), texture, width, height);
    } else {
        assert(buffer_len(width as int, height as int) >= 0) by (nonlinear_arith)
            requires
                width >= 0,
                height >= 0,
        ;
    }
}

/// Glyphs laid side by side take a raster as wide as all of them together
/// and as tall as the tallest of them, with four bytes for each pixel.
pub proof fn lemma_composed_size(rects: Seq<GlyphRect>, texture: ImageView)
    ensures
        composed(rects, texture) matches Ok(image) ==> {
            &&& image.width == total_width(rects)
            &&& image.height == max_height(rects)
            &&& image.is_exact()
            &&& image.sampler == ImageSampler::Nearest
        },
{
    if composed(rects, texture) is Ok {
        lemma_canvas_size(rects, texture, total_width(rects) as u32, max_height(rects) as u32);
        if rects.len() > 0 {
            lemma_height_bounded(rects, 0);
        }
        lemma_max_height_is_attained(rects);
    }
}

/// A glyph that reaches outside the texture makes the copy fail, whatever
/// the other glyphs are.
pub proof fn lemma_glyph_outside_texture_fails(rects: Seq<GlyphRect>, texture: ImageView, i: int)
    requires
        texture.is_readable(),
        0 <= i < rects.len(),
        !glyph_fits(rects[i], texture),
    ensures
        composed(rects, texture) == Err::<ImageView, ImageFontPluginError>(
            ImageFontPluginError::CopyFailure,
        ),
{
}

/// What the canvas shows after the first `n` glyphs were copied: the column
/// `dx` of the place of glyph `k` holds that glyph's column `dx` down to the
/// glyph's height if the glyph was copied, and is untouched otherwise.
proof fn lemma_canvas_pixel(
    rects: Seq<GlyphRect>,
    texture: ImageView,
    width: u32,
    height: u32,
    n: int,
    k: int,
    dx: int,
    y: int,
)
    requires
        texture.is_complete(),
        all_fit(rects, texture),
        total_width(rects) <= width,
        0 <= n <= rects.len(),
        0 <= k < rects.len(),
        0 <= dx < rects[k].spec_width(),
        0 <= y < height,
    ensures
        ({
            let canvas = composed_canvas(rects.take(n), texture, width, height);
            let x = total_width(rects.take(k)) + dx;
            &&& canvas.in_bounds(x, y)
            &&& canvas.pixel(x, y) == if k < n && y < rects[k].spec_height() {
                texture.pixel(rects[k].min_x + dx, rects[k].min_y + y)
            } else {
                untouched()
            }
        }),
    decreases n,
{
    let canvas = composed_canvas(rects.take(n), texture, width, height);
    let x = total_width(rects.take(k)) + dx;
    lemma_canvas_size(rects.take(n), texture, width, height);
    lemma_take_step(rects, k);
    lemma_prefix_width_monotone(rects, k + 1, rects.len() as int);
    assert(rects.take(rects.len() as int) =~= rects);
    assert(canvas.in_bounds(x, y));
    if n == 0 {
        lemma_pixel_in_data(canvas, x, y);
        assert(canvas.pixel(x, y) =~= untouched());
    } else {
        let before = composed_canvas(rects.take(n - 1), texture, width, height);
        let blit = glyph_blit(rects[n - 1], total_width(rects.take(n - 1)));
        lemma_take_step(rects, n - 1);
        lemma_canvas_size(rects.take(n - 1), texture, width, height);
        lemma_canvas_pixel(rects, texture, width, height, n - 1, k, dx, y);
        assert(glyph_fits(rects[n - 1], texture));
        blit.lemma_apply_pixel(before, texture, x, y);
        if k < n - 1 {
            lemma_prefix_width_monotone(rects, k + 1, n - 1);
            assert(!blit.covers_pixel(x, y));
        } else if k > n - 1 {
            lemma_prefix_width_monotone(rects, n, k);
            lemma_take_step(rects, n - 1);
            assert(!blit.covers_pixel(x, y));
        }
    }
}

/// What a raster of glyphs laid side by side shows: in the columns of each
/// glyph, from the top down to the glyph's height, the glyph as it stands in
/// the texture, and below that nothing.
pub proof fn lemma_composed_pixel(
    rects: Seq<GlyphRect>,
    texture: ImageView,
    k: int,
    dx: int,
    y: int,
)
    requires
        composed(rects, texture) is Ok,
        0 <= k < rects.len(),
        0 <= dx < rects[k].spec_width(),
        0 <= y < max_height(rects),
    ensures
        composed(rects, texture) matches Ok(image) && image.in_bounds(
            total_width(rects.take(k)) + dx,
            y,
        ) && image.pixel(total_width(rects.take(k)) + dx, y) == if y < rects[k].spec_height() {
            texture.pixel(rects[k].min_x + dx, rects[k].min_y + y)
        } else {
            untouched()
        },
{
    assert(rects.take(rects.len() as int) =~= rects);
    lemma_max_height_is_attained(rects);
    lemma_canvas_pixel(
        rects,
        texture,
        total_width(rects) as u32,
        max_height(rects) as u32,
        rects.len() as int,
        k,
        dx,
        y,
    );
}

/// A resampled raster has the height that was asked for, and its width is
/// the old width times the new height over the old height, rounded to the
/// nearest whole number.
pub proof fn lemma_rescaled_size(image: ImageView, target_height: u32)
    ensures
        rescaled(image, target_height) matches Ok(out) ==> {
            &&& image.height > 0
            &&& out.height == target_height
            &&& out.width == rounded_quotient(
                (image.width * target_height) as nat,
                image.height as nat,
            )
            &&& out.sampler == image.sampler
        },
{
}

} // verus!
