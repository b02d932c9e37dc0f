use extol_image_font::assets::{Assets, Handle};
use extol_image_font::char_map::CharMap;
use extol_image_font::compose::{compose, rescale, scaled_width};
use extol_image_font::error::ImageFontPluginError;
use extol_image_font::font::ImageFont;
use extol_image_font::geometry::{GlyphRect, URect, UVec2};
use extol_image_font::layout::ImageFontLayout;
use extol_image_font::raster::{checked_buffer_len, Image, ImageSampler};
use extol_image_font::render::{render_text, render_with, ImageFontText};

/// A texture in which the pixel at `(x, y)` is `[x, y, x + y, 255]`.
fn gradient(width: u32, height: u32) -> Image {
    let mut data = Vec::new();
    for y in 0..height {
        for x in 0..width {
            data.push(x as u8);
            data.push(y as u8);
            data.push((x + y) as u8);
            data.push(255);
        }
    }
    Image { width, height, data, sampler: ImageSampler::Default }
}

fn pixel(image: &Image, x: u32, y: u32) -> [u8; 4] {
    let at = ((y * image.width + x) * 4) as usize;
    [image.data[at], image.data[at + 1], image.data[at + 2], image.data[at + 3]]
}

fn grid_font(description: &str, width: u32, height: u32) -> ImageFont {
    let size = UVec2 { x: width, y: height };
    let map = ImageFontLayout::Automatic(description.to_string()).into_char_map(size).unwrap();
    ImageFont::from_char_map(Handle::new(0), size, &map)
}

fn manual_font(entries: &[(char, (u32, u32, u32, u32))]) -> ImageFont {
    let mut rects = CharMap::new();
    for (c, (x0, y0, x1, y1)) in entries {
        rects.insert(*c, URect { min: UVec2 { x: *x0, y: *y0 }, max: UVec2 { x: *x1, y: *y1 } });
    }
    let size = UVec2 { x: 8, y: 8 };
    let map = ImageFontLayout::Manual(rects).into_char_map(size).unwrap();
    ImageFont::from_char_map(Handle::new(0), size, &map)
}

#[test]
fn renders_glyphs_side_by_side() {
    let font = grid_font("AB\nCD", 4, 4);
    let texture = gradient(4, 4);
    let out = render_with("DA", None, &font, &texture).unwrap();
    assert_eq!((out.width, out.height), (4, 2));
    assert_eq!(out.data.len(), 4 * 4 * 2);
    assert_eq!(out.sampler, ImageSampler::Nearest);
    // D is the cell at (2, 2), A the cell at (0, 0).
    assert_eq!(pixel(&out, 0, 0), [2, 2, 4, 255]);
    assert_eq!(pixel(&out, 1, 0), [3, 2, 5, 255]);
    assert_eq!(pixel(&out, 0, 1), [2, 3, 5, 255]);
    assert_eq!(pixel(&out, 1, 1), [3, 3, 6, 255]);
    assert_eq!(pixel(&out, 2, 0), [0, 0, 0, 255]);
    assert_eq!(pixel(&out, 3, 0), [1, 0, 1, 255]);
    assert_eq!(pixel(&out, 2, 1), [0, 1, 1, 255]);
    assert_eq!(pixel(&out, 3, 1), [1, 1, 2, 255]);
}

#[test]
fn width_is_the_sum_and_height_the_maximum() {
    let font = manual_font(&[('a', (0, 0, 3, 2)), ('b', (3, 0, 4, 5)), ('c', (0, 4, 8, 8))]);
    let texture = gradient(8, 8);
    let out = render_with("abcab", None, &font, &texture).unwrap();
    assert_eq!(out.width, 3 + 1 + 8 + 3 + 1);
    assert_eq!(out.height, 5);
    assert_eq!(out.data.len(), (16 * 5 * 4) as usize);
}

#[test]
fn shorter_glyphs_are_aligned_at_the_top() {
    let font = manual_font(&[('a', (0, 0, 2, 1)), ('b', (2, 0, 3, 3))]);
    let texture = gradient(8, 8);
    let out = render_with("ab", None, &font, &texture).unwrap();
    assert_eq!((out.width, out.height), (3, 3));
    assert_eq!(pixel(&out, 0, 0), [0, 0, 0, 255]);
    assert_eq!(pixel(&out, 1, 0), [1, 0, 1, 255]);
    // Below the short glyph nothing was drawn.
    assert_eq!(pixel(&out, 0, 1), [0, 0, 0, 0]);
    assert_eq!(pixel(&out, 1, 2), [0, 0, 0, 0]);
    assert_eq!(pixel(&out, 2, 0), [2, 0, 2, 255]);
    assert_eq!(pixel(&out, 2, 2), [2, 2, 4, 255]);
}

#[test]
fn empty_text_gives_an_empty_image() {
    let font = grid_font("AB\nCD", 4, 4);
    let texture = gradient(4, 4);
    let out = render_with("", None, &font, &texture).unwrap();
    assert_eq!((out.width, out.height), (0, 0));
    assert!(out.data.is_empty());
    let out = render_with("", Some(16), &font, &texture).unwrap();
    assert_eq!((out.width, out.height), (0, 0));
    assert!(out.data.is_empty());
}

#[test]
fn text_without_supported_characters_gives_an_empty_image() {
    let font = grid_font("AB\nCD", 4, 4);
    let texture = gradient(4, 4);
    let out = render_with("xyz ", None, &font, &texture).unwrap();
    assert_eq!((out.width, out.height), (0, 0));
    assert!(out.data.is_empty());
}

#[test]
fn unsupported_characters_are_dropped() {
    let font = grid_font("abc", 6, 2);
    let texture = gradient(6, 2);
    let with = render_with("aXbXc", None, &font, &texture).unwrap();
    let without = render_with("abc", None, &font, &texture).unwrap();
    assert_eq!((with.width, with.height), (without.width, without.height));
    assert_eq!(with.data, without.data);
    assert_eq!(font.filter_string("aXbXc"), "abc");
    assert_eq!(font.filter_string("ccXXaab"), "ccaab");
}

#[test]
fn rectangle_outside_the_texture_fails() {
    let font = manual_font(&[('a', (0, 0, 2, 2)), ('b', (6, 6, 9, 8))]);
    let texture = gradient(8, 8);
    assert!(matches!(
        render_with("ab", None, &font, &texture),
        Err(ImageFontPluginError::CopyFailure)
    ));
    assert!(matches!(
        render_with("b", Some(4), &font, &texture),
        Err(ImageFontPluginError::CopyFailure)
    ));
    // The glyph that lies inside still renders alone.
    assert!(render_with("a", None, &font, &texture).is_ok());
}

#[test]
fn rectangle_that_ends_at_the_edge_is_inside() {
    let font = manual_font(&[('a', (6, 6, 8, 8))]);
    let texture = gradient(8, 8);
    let out = render_with("a", None, &font, &texture).unwrap();
    assert_eq!(pixel(&out, 1, 1), [7, 7, 14, 255]);
}

#[test]
fn texture_with_too_little_data_fails() {
    let font = grid_font("AB\nCD", 4, 4);
    let mut texture = gradient(4, 4);
    texture.data.pop();
    assert!(matches!(
        render_with("A", None, &font, &texture),
        Err(ImageFontPluginError::UnknownError)
    ));
}

#[test]
fn inverted_rectangle_is_empty() {
    let font = manual_font(&[('a', (4, 4, 2, 2)), ('b', (0, 0, 1, 1))]);
    let texture = gradient(8, 8);
    let out = render_with("aba", None, &font, &texture).unwrap();
    assert_eq!((out.width, out.height), (1, 1));
    assert_eq!(pixel(&out, 0, 0), [0, 0, 0, 255]);
}

#[test]
fn rescale_doubles_each_pixel() {
    let font = grid_font("AB\nCD", 4, 4);
    let texture = gradient(4, 4);
    let out = render_with("AD", Some(4), &font, &texture).unwrap();
    assert_eq!((out.width, out.height), (8, 4));
    assert_eq!(out.data.len(), 8 * 4 * 4);
    assert_eq!(out.sampler, ImageSampler::Nearest);
    let native = render_with("AD", None, &font, &texture).unwrap();
    for y in 0..4 {
        for x in 0..8 {
            assert_eq!(pixel(&out, x, y), pixel(&native, x / 2, y / 2));
        }
    }
}

#[test]
fn rescale_takes_every_pixel_from_the_native_image() {
    let font = grid_font("abc", 9, 3);
    let texture = gradient(9, 3);
    let native = render_with("cab", None, &font, &texture).unwrap();
    for target in [1u32, 2, 4, 5, 7] {
        let out = render_with("cab", Some(target), &font, &texture).unwrap();
        assert_eq!(out.height, target);
        assert_eq!(out.width, scaled_width(9, 3, target).unwrap());
        for y in 0..out.height {
            for x in 0..out.width {
                let p = pixel(&out, x, y);
                let mut found = false;
                for sy in 0..native.height {
                    for sx in 0..native.width {
                        found = found || pixel(&native, sx, sy) == p;
                    }
                }
                assert!(found);
            }
        }
    }
}

#[test]
fn rescale_to_the_same_height_changes_nothing() {
    let font = grid_font("AB\nCD", 4, 4);
    let texture = gradient(4, 4);
    let native = render_with("ABCD", None, &font, &texture).unwrap();
    let same = render_with("ABCD", Some(2), &font, &texture).unwrap();
    assert_eq!((same.width, same.height), (native.width, native.height));
    assert_eq!(same.data, native.data);
}

#[test]
fn rescale_to_height_zero_gives_no_pixels() {
    let font = grid_font("AB\nCD", 4, 4);
    let texture = gradient(4, 4);
    let out = render_with("AB", Some(0), &font, &texture).unwrap();
    assert_eq!((out.width, out.height), (0, 0));
    assert!(out.data.is_empty());
}

#[test]
fn scaled_width_rounds_to_nearest() {
    assert_eq!(scaled_width(10, 4, 2), Some(5));
    assert_eq!(scaled_width(10, 3, 1), Some(3)); // 3.33
    assert_eq!(scaled_width(10, 3, 2), Some(7)); // 6.67
    assert_eq!(scaled_width(5, 2, 1), Some(3)); // 2.5 rounds up
    assert_eq!(scaled_width(7, 2, 3), Some(11)); // 10.5 rounds up
    assert_eq!(scaled_width(0, 5, 9), Some(0));
    assert_eq!(scaled_width(7, 7, 0), Some(0));
    assert_eq!(scaled_width(1, 3, 1), Some(0)); // 0.33
    assert_eq!(scaled_width(u32::MAX, 1, 1), Some(u32::MAX));
}

#[test]
fn scaled_width_of_an_image_without_height_is_none() {
    assert_eq!(scaled_width(10, 0, 2), None);
}

#[test]
fn scaled_width_that_does_not_fit_is_none() {
    assert_eq!(scaled_width(u32::MAX, 1, 2), None);
    assert_eq!(scaled_width(65536, 1, 65536), None);
}

#[test]
fn rescale_of_an_image_without_height_fails() {
    let image = Image { width: 3, height: 0, data: Vec::new(), sampler: ImageSampler::Nearest };
    assert!(matches!(rescale(&image, 4), Err(ImageFontPluginError::UnknownError)));
}

#[test]
fn rescale_keeps_proportions() {
    let image = gradient(6, 4);
    let out = rescale(&image, 10).unwrap();
    assert_eq!((out.width, out.height), (15, 10));
    assert_eq!(out.data.len(), 15 * 10 * 4);
    let out = rescale(&image, 3).unwrap();
    assert_eq!((out.width, out.height), (5, 3));
}

#[test]
fn compose_of_no_glyphs_is_an_empty_image() {
    let texture = gradient(4, 4);
    let out = compose(&Vec::new(), &texture).unwrap();
    assert_eq!((out.width, out.height), (0, 0));
    assert!(out.data.is_empty());
}

#[test]
fn compose_copies_every_glyph() {
    let texture = gradient(4, 4);
    let rects = vec![
        GlyphRect { min_x: 1, min_y: 1, max_x: 3, max_y: 2 },
        GlyphRect { min_x: 0, min_y: 2, max_x: 1, max_y: 4 },
    ];
    let out = compose(&rects, &texture).unwrap();
    assert_eq!((out.width, out.height), (3, 2));
    assert_eq!(pixel(&out, 0, 0), [1, 1, 2, 255]);
    assert_eq!(pixel(&out, 1, 0), [2, 1, 3, 255]);
    assert_eq!(pixel(&out, 0, 1), [0, 0, 0, 0]);
    assert_eq!(pixel(&out, 1, 1), [0, 0, 0, 0]);
    assert_eq!(pixel(&out, 2, 0), [0, 2, 2, 255]);
    assert_eq!(pixel(&out, 2, 1), [0, 3, 3, 255]);
}

#[test]
fn compose_refuses_a_glyph_wider_than_any_image() {
    let texture = gradient(4, 4);
    let rects = vec![GlyphRect { min_x: 0, min_y: 0, max_x: u64::MAX, max_y: 1 }];
    assert!(matches!(compose(&rects, &texture), Err(ImageFontPluginError::CopyFailure)));
}

#[test]
fn texture_with_spare_data_is_read_by_its_size() {
    let font = grid_font("AB\nCD", 4, 4);
    let mut texture = gradient(4, 4);
    texture.data.extend_from_slice(&[9, 9, 9, 9]);
    let out = render_with("D", None, &font, &texture).unwrap();
    assert_eq!(pixel(&out, 1, 1), [3, 3, 6, 255]);
}

#[test]
fn render_text_looks_font_and_texture_up() {
    let mut images: Assets<Image> = Assets::new();
    let mut fonts: Assets<ImageFont> = Assets::new();
    let texture = images.add(gradient(4, 4));
    let size = UVec2 { x: 4, y: 4 };
    let map = ImageFontLayout::Automatic("AB\nCD".to_string()).into_char_map(size).unwrap();
    let font = fonts.add(ImageFont::from_char_map(texture, size, &map));
    let text = ImageFontText { text: "C".to_string(), font, font_height: None };
    let out = render_text(&text, &fonts, &images).unwrap();
    assert_eq!((out.width, out.height), (2, 2));
    assert_eq!(pixel(&out, 0, 0), [0, 2, 2, 255]);
}

#[test]
fn missing_font_is_reported() {
    let images: Assets<Image> = Assets::new();
    let fonts: Assets<ImageFont> = Assets::new();
    let text = ImageFontText { text: "C".to_string(), font: Handle::new(3), font_height: None };
    assert!(matches!(
        render_text(&text, &fonts, &images),
        Err(ImageFontPluginError::MissingImageFontAsset)
    ));
}

#[test]
fn missing_texture_is_reported() {
    let images: Assets<Image> = Assets::new();
    let mut fonts: Assets<ImageFont> = Assets::new();
    let font = fonts.add(grid_font("AB\nCD", 4, 4));
    // Even an empty text needs its texture.
    let text = ImageFontText { text: String::new(), font, font_height: None };
    assert!(matches!(
        render_text(&text, &fonts, &images),
        Err(ImageFontPluginError::MissingTextureAsset)
    ));
}

#[test]
fn render_error_messages() {
    assert_eq!(ImageFontPluginError::MissingImageFontAsset.message(), "ImageFont asset not loaded");
    assert_eq!(
        ImageFontPluginError::MissingTextureAsset.message(),
        "Font texture asset not loaded"
    );
    assert_eq!(ImageFontPluginError::UnknownError.message(), "internal error");
    assert_eq!(ImageFontPluginError::CopyFailure.message(), "failed to copy from atlas");
}

#[test]
fn raster_wider_than_any_image_fails() {
    let font = manual_font(&[('a', (0, 0, 65536, 1))]);
    let texture = Image {
        width: 65536,
        height: 1,
        data: vec![7; 65536 * 4],
        sampler: ImageSampler::Default,
    };
    let fits = "a".repeat(3);
    assert_eq!(render_with(&fits, None, &font, &texture).unwrap().width, 3 * 65536);
    let too_wide = "a".repeat(65536);
    assert!(matches!(
        render_with(&too_wide, None, &font, &texture),
        Err(ImageFontPluginError::UnknownError)
    ));
}

#[test]
fn rescale_to_more_than_a_buffer_holds_fails() {
    let image = gradient(1, 1);
    assert!(matches!(rescale(&image, u32::MAX), Err(ImageFontPluginError::UnknownError)));
    let image = gradient(2, 1);
    assert!(matches!(rescale(&image, u32::MAX), Err(ImageFontPluginError::UnknownError)));
}

#[test]
fn rescale_of_incomplete_data_fails() {
    let mut image = gradient(2, 2);
    image.data.truncate(15);
    assert!(!image.holds_pixels());
    assert!(matches!(rescale(&image, 4), Err(ImageFontPluginError::UnknownError)));
}

#[test]
fn holds_pixels_compares_data_and_size() {
    assert!(gradient(3, 2).holds_pixels());
    let mut image = gradient(3, 2);
    image.data.push(0);
    assert!(image.holds_pixels());
    image.data.truncate(23);
    assert!(!image.holds_pixels());
    let huge = Image {
        width: u32::MAX,
        height: u32::MAX,
        data: vec![0; 8],
        sampler: ImageSampler::Default,
    };
    assert!(!huge.holds_pixels());
    let none = Image { width: 0, height: 9, data: Vec::new(), sampler: ImageSampler::Default };
    assert!(none.holds_pixels());
}

#[test]
fn buffer_length_is_four_bytes_a_pixel() {
    assert_eq!(checked_buffer_len(3, 5), Some(60));
    assert_eq!(checked_buffer_len(0, 5), Some(0));
    assert_eq!(checked_buffer_len(u32::MAX, u32::MAX), None);
}

#[test]
fn glyph_rect_extents() {
    let rect = GlyphRect { min_x: 2, min_y: 3, max_x: 7, max_y: 4 };
    assert_eq!((rect.width(), rect.height()), (5, 1));
    let inverted = GlyphRect { min_x: 7, min_y: 4, max_x: 2, max_y: 3 };
    assert_eq!((inverted.width(), inverted.height()), (0, 0));
    let sized = GlyphRect::from_size(UVec2 { x: 1, y: 2 }, UVec2 { x: 3, y: 4 });
    assert_eq!(sized, GlyphRect { min_x: 1, min_y: 2, max_x: 4, max_y: 6 });
    let corners = URect { min: UVec2 { x: 1, y: 2 }, max: UVec2 { x: 3, y: 4 } };
    let same = GlyphRect::from_urect(corners);
    assert_eq!(same, GlyphRect { min_x: 1, min_y: 2, max_x: 3, max_y: 4 });
}

#[test]
fn glyphs_without_width_give_an_image_without_columns() {
    let font = manual_font(&[('a', (2, 1, 2, 4))]);
    let texture = gradient(8, 8);
    let out = render_with("aa", None, &font, &texture).unwrap();
    assert_eq!((out.width, out.height), (0, 3));
    assert!(out.data.is_empty());
    let out = render_with("aa", Some(6), &font, &texture).unwrap();
    assert_eq!((out.width, out.height), (0, 6));
    assert!(out.data.is_empty());
    let out = render_with("aa", Some(3), &font, &texture).unwrap();
    assert_eq!((out.width, out.height), (0, 3));
}

#[test]
fn glyphs_without_height_cannot_be_rescaled() {
    let font = manual_font(&[('a', (2, 1, 4, 1))]);
    let texture = gradient(8, 8);
    let out = render_with("aa", None, &font, &texture).unwrap();
    assert_eq!((out.width, out.height), (4, 0));
    assert!(out.data.is_empty());
    assert!(matches!(
        render_with("aa", Some(6), &font, &texture),
        Err(ImageFontPluginError::UnknownError)
    ));
}

#[test]
fn rescale_down_picks_pixels_of_the_image() {
    let image = gradient(8, 6);
    for target in [1u32, 2, 3, 4, 5] {
        let out = rescale(&image, target).unwrap();
        assert_eq!(out.height, target);
        assert_eq!(out.width, scaled_width(8, 6, target).unwrap());
        assert_eq!(out.data.len(), (out.width * out.height * 4) as usize);
        for y in 0..out.height {
            for x in 0..out.width {
                let p = pixel(&out, x, y);
                // In the gradient a pixel's colour tells its place.
                assert!((p[0] as u32) < 8 && (p[1] as u32) < 6);
                assert_eq!(p, pixel(&image, p[0] as u32, p[1] as u32));
            }
        }
    }
}

#[test]
fn empty_text_does_not_look_at_the_texture() {
    let font = grid_font("AB\nCD", 4, 4);
    let texture = Image { width: 4, height: 4, data: Vec::new(), sampler: ImageSampler::Default };
    let out = render_with("xyz", Some(3), &font, &texture).unwrap();
    assert_eq!((out.width, out.height), (0, 0));
    assert!(out.data.is_empty());
    assert_eq!(out.sampler, ImageSampler::Default);
}

#[test]
fn composed_pixels_follow_the_glyphs() {
    let texture = gradient(16, 12);
    let rects = vec![
        GlyphRect { min_x: 3, min_y: 2, max_x: 8, max_y: 9 },
        GlyphRect { min_x: 0, min_y: 0, max_x: 1, max_y: 12 },
        GlyphRect { min_x: 9, min_y: 9, max_x: 9, max_y: 10 },
        GlyphRect { min_x: 10, min_y: 11, max_x: 16, max_y: 12 },
        GlyphRect { min_x: 3, min_y: 2, max_x: 8, max_y: 9 },
    ];
    let out = compose(&rects, &texture).unwrap();
    assert_eq!((out.width, out.height), (5 + 1 + 0 + 6 + 5, 12));
    assert_eq!(out.data.len(), (17 * 12 * 4) as usize);
    let mut cursor = 0;
    for rect in &rects {
        for dx in 0..rect.width() as u32 {
            for y in 0..out.height {
                let expected = if (y as u64) < rect.height() {
                    pixel(&texture, rect.min_x as u32 + dx, rect.min_y as u32 + y)
                } else {
                    [0, 0, 0, 0]
                };
                assert_eq!(pixel(&out, cursor + dx, y), expected);
            }
        }
        cursor += rect.width() as u32;
    }
    assert_eq!(cursor, out.width);
}

#[test]
fn rescaled_text_has_four_bytes_for_each_pixel() {
    let font = manual_font(&[('a', (0, 0, 5, 3))]);
    let texture = gradient(5, 3);
    let out = render_with("a", Some(4), &font, &texture).unwrap();
    // 5 * 4 / 3 = 6.67
    assert_eq!((out.width, out.height), (7, 4));
    assert_eq!(out.data.len(), 7 * 4 * 4);
    let native = render_with("a", None, &font, &texture).unwrap();
    assert_eq!((native.width, native.height), (5, 3));
    assert_eq!(native.data.len(), 5 * 3 * 4);
    assert_eq!(native.data, texture.data);
}
