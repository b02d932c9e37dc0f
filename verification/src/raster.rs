//! RGBA rasters and the pixel operations on them.
//!
//! The pixel work itself is done by the `image` crate. Each call into it
//! stands in a function of its own whose contract states what that call does
//! to the bytes of a raster; those contracts are taken on trust.

use image::GenericImage;
use image::GenericImageView;
use vstd::arithmetic::div_mod::lemma_fundamental_div_mod_converse;
use vstd::prelude::*;

verus! {

/// How a renderer samples a raster when it draws it.
#[derive(Clone, Copy, Debug, PartialEq, Eq, Structural)]
pub enum ImageSampler {
    /// Whatever the renderer does by default.
    Default,
    /// Nearest-neighbour sampling, which keeps pixel art crisp.
    Nearest,
}

/// A raster of 8-bit RGBA pixels, stored row by row from the top left.
#[derive(Clone, Debug)]
pub struct Image {
    pub width: u32,
    pub height: u32,
    pub data: Vec<u8>,
    pub sampler: ImageSampler,
}

/// The mathematical content of an [`Image`].
pub struct ImageView {
    pub width: u32,
    pub height: u32,
    pub data: Seq<u8>,
    pub sampler: ImageSampler,
}

impl View for Image {
    type V = ImageView;

    open spec fn view(&self) -> ImageView {
        ImageView {
            width: self.width,
            height: self.height,
            data: self.data@,
            sampler: self.sampler,
        }
    }
}

/// The number of bytes that the pixels of a `width` by `height` raster take.
pub open spec fn buffer_len(width: int, height: int) -> int {
    4 * width * height
}

/// The largest number of bytes that one buffer can hold.
pub open spec fn max_buffer_len() -> int {
    isize::MAX as int
}

/// The bytes of one row of `width` pixels can be counted: the length of a
/// buffer is worked out row first, so this is asked even of a raster
/// without rows.
pub open spec fn row_fits(width: int) -> bool {
    4 * width <= usize::MAX
}

/// A buffer can hold the pixels of a `width` by `height` raster.
pub open spec fn can_allocate(width: int, height: int) -> bool {
    row_fits(width) && buffer_len(width, height) <= max_buffer_len()
}

/// The index in a raster's data of the first byte of the pixel at `(x, y)`.
pub open spec fn pixel_offset(width: int, x: int, y: int) -> int {
    (y * width + x) * 4
}

impl ImageView {
    /// The data holds a byte for every channel of every pixel.
    pub open spec fn is_complete(self) -> bool {
        self.data.len() >= buffer_len(self.width as int, self.height as int)
    }

    /// The pixels can be read from the data: the bytes of a row can be
    /// counted, and the data holds a byte for every channel of every pixel.
    pub open spec fn is_readable(self) -> bool {
        row_fits(self.width as int) && self.is_complete()
    }

    /// The data holds the pixels and nothing else.
    pub open spec fn is_exact(self) -> bool {
        self.data.len() == buffer_len(self.width as int, self.height as int)
    }

    /// `(x, y)` names a pixel of the raster.
    pub open spec fn in_bounds(self, x: int, y: int) -> bool {
        0 <= x < self.width && 0 <= y < self.height
    }

    /// The four channel bytes of the pixel at `(x, y)`.
    pub open spec fn pixel(self, x: int, y: int) -> Seq<u8> {
        let at = pixel_offset(self.width as int, x, y);
        self.data.subrange(at, at + 4)
    }

    /// Some pixel of this raster has the four channel bytes `colour`.
    pub open spec fn has_colour(self, colour: Seq<u8>) -> bool {
        exists|x: int, y: int| self.in_bounds(x, y) && #[trigger] self.pixel(x, y) == colour
    }

    /// Every pixel of this raster has the colour of some pixel of `source`.
    pub open spec fn drawn_from(self, source: ImageView) -> bool {
        forall|x: int, y: int|
            self.in_bounds(x, y) ==> source.has_colour(#[trigger] self.pixel(x, y))
    }

    /// Every raster is drawn from itself.
    pub proof fn lemma_drawn_from_itself(self)
        ensures
            self.drawn_from(self),
    {
    }

    /// The raster of the given size whose every byte is zero.
    pub open spec fn blank(width: u32, height: u32) -> ImageView {
        ImageView {
            width,
            height,
            data: Seq::new(buffer_len(width as int, height as int) as nat, |i: int| 0u8),
            sampler: ImageSampler::Default,
        }
    }

    /// The raster with no pixels at all.
    pub open spec fn empty() -> ImageView {
        ImageView { width: 0, height: 0, data: Seq::empty(), sampler: ImageSampler::Default }
    }
}

impl Image {
    /// Whether the pixels can be read from the data: the bytes of a row can
    /// be counted, and the data holds a byte for every channel of every
    /// pixel.
    pub fn holds_pixels(&self) -> (readable: bool)
        ensures
            readable == self@.is_readable(),
    {
        assert(self.width * self.height <= 0xffff_ffff * 0xffff_ffff) by (nonlinear_arith)
            requires
                self.width <= 0xffff_ffff,
                self.height <= 0xffff_ffff,
        ;
        let needed: u128 = 4 * (self.width as u128 * self.height as u128);
        assert(needed == buffer_len(self.width as int, self.height as int)) by (nonlinear_arith)
            requires
                needed == 4 * (self.width * self.height),
        ;
        self.width as u64 * 4 <= usize::MAX as u64 && self.data.len() as u128 >= needed
    }
}

/// The number of bytes of a `width` by `height` raster, if one buffer can
/// hold that many.
pub fn checked_buffer_len(width: u32, height: u32) -> (len: Option<usize>)
    ensures
        len is Some <==> can_allocate(width as int, height as int),
        len matches Some(n) ==> n == buffer_len(width as int, height as int),
{
    assert(width * height <= 0xffff_ffff * 0xffff_ffff) by (nonlinear_arith)
        requires
            width <= 0xffff_ffff,
            height <= 0xffff_ffff,
    ;
    let pixels: u64 = width as u64 * height as u64;
    assert(4 * pixels == buffer_len(width as int, height as int)) by (nonlinear_arith)
        requires
            pixels == width * height,
    ;
    let limit: u64 = isize::MAX as u64;
    if width as u64 * 4 <= usize::MAX as u64 && pixels <= limit / 4 {
        Some((pixels * 4) as usize)
    } else {
        None
    }
}

/// A block of pixels of one raster, the source, and the place in another,
/// the destination, where it goes.
pub struct Blit {
    /// Left edge of the block in the source.
    pub src_x: int,
    /// Top edge of the block in the source.
    pub src_y: int,
    /// Width of the block.
    pub width: int,
    /// Height of the block.
    pub height: int,
    /// Left edge of the block in the destination.
    pub dst_x: int,
    /// Top edge of the block in the destination.
    pub dst_y: int,
}

impl Blit {
    /// The block of the given size at `(src_x, src_y)` in the source, to be
    /// placed at `(dst_x, dst_y)` in the destination.
    pub open spec fn new(
        src_x: u32,
        src_y: u32,
        width: u32,
        height: u32,
        dst_x: u32,
        dst_y: u32,
    ) -> Blit {
        Blit {
            src_x: src_x as int,
            src_y: src_y as int,
            width: width as int,
            height: height as int,
            dst_x: dst_x as int,
            dst_y: dst_y as int,
        }
    }

    /// The block lies inside a source of the given size.
    pub open spec fn within_source(self, src: ImageView) -> bool {
        &&& 0 <= self.src_x && 0 <= self.width && self.src_x + self.width <= src.width
        &&& 0 <= self.src_y && 0 <= self.height && self.src_y + self.height <= src.height
    }

    /// The block, once placed, lies inside a destination of the given size.
    pub open spec fn within_destination(self, dst: ImageView) -> bool {
        &&& 0 <= self.dst_x && self.dst_x + self.width <= dst.width
        &&& 0 <= self.dst_y && self.dst_y + self.height <= dst.height
    }

    /// Byte `i` of the destination's data lies in a pixel that the placed
    /// block covers. Four bytes make a pixel and `dst.width` pixels a row.
    pub open spec fn covers(self, dst: ImageView, i: int) -> bool {
        let x = (i / 4) % (dst.width as int);
        let y = (i / 4) / (dst.width as int);
        &&& self.dst_x <= x < self.dst_x + self.width
        &&& self.dst_y <= y < self.dst_y + self.height
    }

    /// The index in the source's data of the byte that lands on byte `i` of
    /// the destination's data.
    pub open spec fn source_index(self, dst: ImageView, src: ImageView, i: int) -> int {
        let x = (i / 4) % (dst.width as int);
        let y = (i / 4) / (dst.width as int);
        pixel_offset(src.width as int, self.src_x + x - self.dst_x, self.src_y + y - self.dst_y)
            + i % 4
    }

    /// The destination's data after the block was copied into it: covered
    /// bytes come from the source, all others stay.
    pub open spec fn apply(self, dst: ImageView, src: ImageView) -> Seq<u8> {
        Seq::new(
            dst.data.len(),
            |i: int|
                if self.covers(dst, i) {
                    src.data[self.source_index(dst, src, i)]
                } else {
                    dst.data[i]
                },
        )
    }
}

/// The data of a `width` by `height` raster with data `data` after
/// nearest-neighbour resampling to `new_width` by `new_height`.
pub uninterp spec fn resampled(
    data: Seq<u8>,
    width: u32,
    height: u32,
    new_width: u32,
    new_height: u32,
) -> Seq<u8>;

/// `image::ImageError`, the error of the `image` crate's operations. Nothing
/// is known of what a value of it holds.
#[verifier::external_type_specification]
#[verifier::external_body]
pub struct ExImageError(image::ImageError);

/// Allocates a raster through `image::RgbaImage::new`, which hands back a
/// zero-filled buffer of four bytes per pixel. It works the length out as
/// four times the width, times the height, and panics when either product
/// does not fit or the buffer would be too large to allocate.
#[verifier::external_body]
pub(crate) fn new_blank(width: u32, height: u32) -> (out: Image)
    requires
        can_allocate(width as int, height as int),
    ensures
        out@ == ImageView::blank(width, height),
{
    let buffer = image::RgbaImage::new(width, height);
    Image { width, height, data: buffer.into_raw(), sampler: ImageSampler::Default }
}

/// Copies a block of `src` into `dst` through `image::GenericImage::copy_from`
/// on an `image::GenericImageView::view` of the source.
///
/// `ImageBuffer::from_raw` takes a raster only if its pixels can be read
/// from the data, `view` panics unless the block lies inside the source, and
/// `copy_from` adds the block's size to its position without a check: all
/// three are ruled out by `requires`. `copy_from` refuses, and leaves the destination as it was,
/// exactly when the placed block does not lie inside the destination;
/// otherwise it copies the block pixel by pixel and touches nothing else.
#[verifier::external_body]
pub(crate) fn copy_block(
    dst: &mut Image,
    src: &Image,
    src_x: u32,
    src_y: u32,
    width: u32,
    height: u32,
    dst_x: u32,
    dst_y: u32,
) -> (copied: Result<(), image::ImageError>)
    requires
        old(dst)@.is_readable(),
        src@.is_readable(),
        Blit::new(src_x, src_y, width, height, dst_x, dst_y).within_source(src@),
        dst_x + width <= u32::MAX,
        dst_y + height <= u32::MAX,
    ensures
        final(dst).width == old(dst).width,
        final(dst).height == old(dst).height,
        final(dst).sampler == old(dst).sampler,
        copied is Ok <==> Blit::new(src_x, src_y, width, height, dst_x, dst_y).within_destination(
            old(dst)@,
        ),
        copied is Ok ==> final(dst).data@ == Blit::new(
            src_x,
            src_y,
            width,
            height,
            dst_x,
            dst_y,
        ).apply(old(dst)@, src@),
        copied is Err ==> final(dst).data@ == old(dst).data@,
{
    let taken = std::mem::take(&mut dst.data);
    let mut target = image::RgbaImage::from_raw(dst.width, dst.height, taken).unwrap();
    let source: image::ImageBuffer<image::Rgba<u8>, &[u8]> =
        image::ImageBuffer::from_raw(src.width, src.height, src.data.as_slice()).unwrap();
    let copied = target.copy_from(&*source.view(src_x, src_y, width, height), dst_x, dst_y);
    dst.data = target.into_raw();
    copied
}

/// Resamples a raster through `image::imageops::resize` with
/// `image::imageops::FilterType::Nearest`.
///
/// `ImageBuffer::from_raw` takes the source only if its pixels can be read
/// from its data. `resize` allocates an intermediate raster of `src.width`
/// by `new_height` pixels at sixteen bytes each and the result at four bytes
/// each, and panics when either is too large: all are ruled out by
/// `requires`. With this
/// filter every pixel of the result is a copy of one pixel of the source
/// (one source pixel with weight one is sampled per row and per column),
/// provided the source has any pixel.
#[verifier::external_body]
pub(crate) fn resize_nearest(src: &Image, new_width: u32, new_height: u32) -> (out: Image)
    requires
        src@.is_readable(),
        16 * src.width * new_height <= max_buffer_len(),
        can_allocate(new_width as int, new_height as int),
    ensures
        out.width == new_width,
        out.height == new_height,
        out.sampler == src.sampler,
        out@.is_exact(),
        out.data@ == resampled(src.data@, src.width, src.height, new_width, new_height),
        src.width > 0 && src.height > 0 ==> out@.drawn_from(src@),
{
    let source: image::ImageBuffer<image::Rgba<u8>, &[u8]> =
        image::ImageBuffer::from_raw(src.width, src.height, src.data.as_slice()).unwrap();
    let filter = image::imageops::FilterType::Nearest;
    let resized = image::imageops::resize(&source, new_width, new_height, filter);
    Image { width: new_width, height: new_height, data: resized.into_raw(), sampler: src.sampler }
}

/// Where a channel byte of a pixel lies in the data tells the pixel's place
/// and the channel.
pub proof fn lemma_byte_of_pixel(width: int, x: int, y: int, channel: int)
    requires
        0 <= x < width,
        0 <= y,
        0 <= channel < 4,
    ensures
        ({
            let i = pixel_offset(width, x, y) + channel;
            &&& i >= 0
            &&& i / 4 == y * width + x
            &&& i % 4 == channel
            &&& (i / 4) % width == x
            &&& (i / 4) / width == y
        }),
{
    let p = y * width + x;
    assert(p >= 0) by (nonlinear_arith)
        requires
            p == y * width + x,
            0 <= y,
            0 <= x < width,
    ;
    lemma_fundamental_div_mod_converse(p * 4 + channel, 4, p, channel);
    lemma_fundamental_div_mod_converse(p, width, y, x);
}

/// The bytes of a pixel of a raster lie inside the raster's data.
pub proof fn lemma_pixel_in_data(image: ImageView, x: int, y: int)
    requires
        image.is_complete(),
        image.in_bounds(x, y),
    ensures
        0 <= pixel_offset(image.width as int, x, y),
        pixel_offset(image.width as int, x, y) + 4 <= image.data.len(),
        image.pixel(x, y).len() == 4,
{
    let w = image.width as int;
    let h = image.height as int;
    assert(0 <= (y * w + x) * 4 && (y * w + x) * 4 + 4 <= 4 * w * h) by (nonlinear_arith)
        requires
            0 <= x < w,
            0 <= y < h,
    ;
}

impl Blit {
    /// The place `(x, y)` of the destination belongs to the placed block.
    pub open spec fn covers_pixel(self, x: int, y: int) -> bool {
        &&& self.dst_x <= x < self.dst_x + self.width
        &&& self.dst_y <= y < self.dst_y + self.height
    }

    /// After a copy, a pixel that the block covers is the source's pixel at
    /// the same place within the block, and every other pixel is what it
    /// was.
    pub proof fn lemma_apply_pixel(self, dst: ImageView, src: ImageView, x: int, y: int)
        requires
            dst.is_complete(),
            dst.in_bounds(x, y),
            src.is_complete(),
            self.within_source(src),
            0 <= self.dst_x,
            0 <= self.dst_y,
        ensures
            (ImageView { data: self.apply(dst, src), ..dst }).pixel(x, y) == if self.covers_pixel(
                x,
                y,
            ) {
                src.pixel(self.src_x + x - self.dst_x, self.src_y + y - self.dst_y)
            } else {
                dst.pixel(x, y)
            },
    {
        let after = ImageView { data: self.apply(dst, src), ..dst };
        let at = pixel_offset(dst.width as int, x, y);
        lemma_pixel_in_data(dst, x, y);
        lemma_byte_of_pixel(dst.width as int, x, y, 0);
        lemma_byte_of_pixel(dst.width as int, x, y, 1);
        lemma_byte_of_pixel(dst.width as int, x, y, 2);
        lemma_byte_of_pixel(dst.width as int, x, y, 3);
        if self.covers_pixel(x, y) {
            let sx = self.src_x + x - self.dst_x;
            let sy = self.src_y + y - self.dst_y;
            lemma_pixel_in_data(src, sx, sy);
            let from = pixel_offset(src.width as int, sx, sy);
            let shown = after.pixel(x, y);
            let wanted = src.pixel(sx, sy);
            assert forall|channel: int| 0 <= channel < 4 implies #[trigger] shown[channel]
                == wanted[channel] by {
                assert(self.covers(dst, at + channel));
                assert(self.source_index(dst, src, at + channel) == from + channel);
                assert(shown[channel] == after.data[at + channel]);
                assert(wanted[channel] == src.data[from + channel]);
            }
            assert(shown =~= wanted);
        } else {
            let shown = after.pixel(x, y);
            let wanted = dst.pixel(x, y);
            assert forall|channel: int| 0 <= channel < 4 implies #[trigger] shown[channel]
                == wanted[channel] by {
                assert(!self.covers(dst, at + channel));
                assert(shown[channel] == after.data[at + channel]);
                assert(wanted[channel] == dst.data[at + channel]);
            }
            assert(shown =~= wanted);
        }
    }
}

} // verus!
