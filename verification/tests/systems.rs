use extol_image_font::{
    mark_changed_fonts_as_dirty, render_sprites, render_text, render_ui_images, AssetEvent,
    Assets, CharMap, Handle, Image, ImageFont, ImageFontBundle, ImageFontLayout,
    ImageFontPluginError, ImageFontText, ImageFontUiBundle, ImageSampler, UiImage, URect, UVec2,
};

/// A texture in which the pixel at `(x, y)` is `[x, y, shade, 255]`.
fn texture(width: u32, height: u32, shade: u8) -> Image {
    let mut data = Vec::new();
    for y in 0..height {
        for x in 0..width {
            data.extend_from_slice(&[x as u8, y as u8, shade, 255]);
        }
    }
    Image { width, height, data, sampler: ImageSampler::Default }
}

fn font_over(texture: Handle<Image>, description: &str, width: u32, height: u32) -> ImageFont {
    let size = UVec2 { x: width, y: height };
    let map = ImageFontLayout::Automatic(description.to_string()).into_char_map(size).unwrap();
    ImageFont::from_char_map(texture, size, &map)
}

fn bundle(text: &str, font: &Handle<ImageFont>, changed: bool) -> ImageFontBundle {
    ImageFontBundle {
        text: ImageFontText { text: text.to_string(), font: font.clone(), font_height: None },
        texture: Handle::default(),
        changed,
    }
}

#[test]
fn handles_are_issued_in_order() {
    let mut images: Assets<Image> = Assets::new();
    assert!(images.has_room());
    let first = images.add(texture(1, 1, 0));
    let second = images.add(texture(2, 1, 0));
    assert_eq!(first.id, 0);
    assert_eq!(second.id, 1);
    assert_eq!(images.get(&first).unwrap().width, 1);
    assert_eq!(images.get(&second).unwrap().width, 2);
    assert!(images.get(&Handle::new(2)).is_none());
}

#[test]
fn replace_changes_only_what_a_handle_refers_to() {
    let mut images: Assets<Image> = Assets::new();
    let first = images.add(texture(1, 1, 0));
    let previous = images.replace(&first, texture(3, 1, 0));
    assert_eq!(previous.unwrap().width, 1);
    assert_eq!(images.get(&first).unwrap().width, 3);
    assert!(images.replace(&Handle::new(7), texture(5, 1, 0)).is_none());
    assert!(images.get(&Handle::new(7)).is_none());
    // The next handle is still the second one.
    assert_eq!(images.add(texture(1, 1, 0)).id, 1);
}

#[test]
fn char_map_insert_overwrites() {
    let mut map: CharMap<u32> = CharMap::new();
    assert!(!map.contains_key('a'));
    map.insert('a', 1);
    map.insert('b', 2);
    map.insert('a', 3);
    assert_eq!(map.get('a'), Some(&3));
    assert_eq!(map.get('b'), Some(&2));
    assert_eq!(map.get('c'), None);
    assert!(map.contains_key('b'));
    let mut keys = map.keys();
    keys.sort();
    assert_eq!(keys, vec!['a', 'b']);
}

#[test]
fn font_from_char_map_has_the_same_glyphs() {
    let mut rects = CharMap::new();
    rects.insert('x', URect { min: UVec2 { x: 1, y: 2 }, max: UVec2 { x: 3, y: 4 } });
    rects.insert('y', URect { min: UVec2 { x: 5, y: 6 }, max: UVec2 { x: 7, y: 8 } });
    let size = UVec2 { x: 8, y: 8 };
    let map = ImageFontLayout::Manual(rects).into_char_map(size).unwrap();
    let font = ImageFont::from_char_map(Handle::new(4), size, &map);
    assert_eq!(font.texture.id, 4);
    assert_eq!(font.layout.size, size);
    assert_eq!(font.layout.textures.len(), 2);
    for c in ['x', 'y'] {
        assert_eq!(font.glyph(c).as_ref(), map.get(c));
    }
    assert_eq!(font.glyph('z'), None);
    assert_eq!(font.glyphs_of("zyxz").len(), 2);
    assert_eq!(font.glyphs_of("zyxz")[0], *map.get('y').unwrap());
}

#[test]
fn font_ignores_an_index_without_a_rectangle() {
    let mut font = font_over(Handle::new(0), "ab", 4, 2);
    font.index_map.insert('c', 17);
    assert_eq!(font.glyph('c'), None);
    assert_eq!(font.filter_string("abc"), "ab");
}

#[test]
fn only_modified_and_loaded_fonts_make_texts_dirty() {
    let font_a: Handle<ImageFont> = Handle::new(1);
    let font_b: Handle<ImageFont> = Handle::new(2);
    let font_c: Handle<ImageFont> = Handle::new(3);
    let font_d: Handle<ImageFont> = Handle::new(4);
    let mut bundles = vec![
        bundle("one", &font_a, false),
        bundle("two", &font_b, false),
        bundle("three", &font_c, false),
        bundle("four", &font_d, true),
        bundle("five", &font_a, false),
    ];
    let events = vec![
        AssetEvent::Modified { id: 1 },
        AssetEvent::Added { id: 2 },
        AssetEvent::Removed { id: 2 },
        AssetEvent::Unused { id: 2 },
        AssetEvent::LoadedWithDependencies { id: 3 },
    ];
    mark_changed_fonts_as_dirty(&events, &mut bundles);
    let changed: Vec<bool> = bundles.iter().map(|bundle| bundle.changed).collect();
    assert_eq!(changed, vec![true, false, true, true, true]);
    assert_eq!(bundles[2].text.text, "three");
    assert_eq!(bundles[2].texture.id, u64::MAX);
}

#[test]
fn no_events_leave_texts_as_they_are() {
    let font: Handle<ImageFont> = Handle::new(1);
    let mut bundles = vec![bundle("one", &font, false), bundle("two", &font, true)];
    mark_changed_fonts_as_dirty(&Vec::new(), &mut bundles);
    assert!(!bundles[0].changed);
    assert!(bundles[1].changed);
}

#[test]
fn changed_texts_are_rendered_into_new_images() {
    let mut images: Assets<Image> = Assets::new();
    let mut fonts: Assets<ImageFont> = Assets::new();
    let atlas = images.add(texture(4, 2, 9));
    let font = fonts.add(font_over(atlas, "ab", 4, 2));
    let mut bundles =
        vec![bundle("ab", &font, true), bundle("b", &font, false), bundle("ba", &font, true)];
    let errors = render_sprites(&mut bundles, &fonts, &mut images);
    assert!(errors.is_empty());
    assert_eq!(bundles[0].texture.id, 1);
    assert_eq!(bundles[1].texture.id, u64::MAX);
    assert_eq!(bundles[2].texture.id, 2);
    assert!(bundles.iter().all(|bundle| !bundle.changed));
    let first = images.get(&bundles[0].texture).unwrap();
    assert_eq!((first.width, first.height), (4, 2));
    assert_eq!(&first.data[0..4], &[0, 0, 9, 255]);
    let third = images.get(&bundles[2].texture).unwrap();
    assert_eq!(&third.data[0..4], &[2, 0, 9, 255]);
    // A second pass finds nothing to do.
    let errors = render_sprites(&mut bundles, &fonts, &mut images);
    assert!(errors.is_empty());
    assert_eq!(bundles[0].texture.id, 1);
    assert!(images.get(&Handle::new(3)).is_none());
}

#[test]
fn failed_renders_keep_the_old_image_and_are_reported() {
    let mut images: Assets<Image> = Assets::new();
    let mut fonts: Assets<ImageFont> = Assets::new();
    let atlas = images.add(texture(4, 2, 9));
    let good = fonts.add(font_over(atlas, "ab", 4, 2));
    let no_texture = fonts.add(font_over(Handle::new(99), "ab", 4, 2));
    let missing: Handle<ImageFont> = Handle::new(50);
    let mut bundles = vec![
        bundle("a", &missing, true),
        bundle("a", &good, true),
        bundle("a", &no_texture, true),
    ];
    let errors = render_sprites(&mut bundles, &fonts, &mut images);
    assert_eq!(
        errors,
        vec![
            (0, ImageFontPluginError::MissingImageFontAsset),
            (2, ImageFontPluginError::MissingTextureAsset),
        ]
    );
    assert_eq!(bundles[0].texture.id, u64::MAX);
    assert_eq!(bundles[1].texture.id, 1);
    assert_eq!(bundles[2].texture.id, u64::MAX);
    assert!(bundles.iter().all(|bundle| !bundle.changed));
}

#[test]
fn replaced_font_shows_in_the_next_render() {
    let mut images: Assets<Image> = Assets::new();
    let mut fonts: Assets<ImageFont> = Assets::new();
    let atlas = images.add(texture(4, 2, 9));
    let font = fonts.add(font_over(atlas.clone(), "ab", 4, 2));
    let mut bundles = vec![bundle("a", &font, true)];
    assert!(render_sprites(&mut bundles, &fonts, &mut images).is_empty());
    let before = images.get(&bundles[0].texture).unwrap().clone();
    assert_eq!(&before.data[0..4], &[0, 0, 9, 255]);

    // The same characters, the other way round.
    fonts.replace(&font, font_over(atlas, "ba", 4, 2));
    mark_changed_fonts_as_dirty(&vec![AssetEvent::Modified { id: font.id }], &mut bundles);
    assert!(bundles[0].changed);
    assert!(render_sprites(&mut bundles, &fonts, &mut images).is_empty());
    let after = images.get(&bundles[0].texture).unwrap();
    assert_eq!(&after.data[0..4], &[2, 0, 9, 255]);
    assert_ne!(after.data, before.data);
}

#[test]
fn default_handle_refers_to_nothing() {
    let mut images: Assets<Image> = Assets::new();
    images.add(texture(1, 1, 0));
    let nothing: Handle<Image> = Handle::default();
    assert_eq!(nothing.id, u64::MAX);
    assert!(images.get(&nothing).is_none());
    assert!(images.replace(&nothing, texture(1, 1, 0)).is_none());
    assert_eq!(nothing.clone().id, nothing.id);
}

#[test]
fn default_text_is_empty_and_without_font() {
    let text = ImageFontText::default();
    assert_eq!(text.text, "");
    assert_eq!(text.font.id, u64::MAX);
    assert_eq!(text.font_height, None);
    let images: Assets<Image> = Assets::new();
    let fonts: Assets<ImageFont> = Assets::new();
    assert!(matches!(
        render_text(&text, &fonts, &images),
        Err(ImageFontPluginError::MissingImageFontAsset)
    ));
    let bundle = ImageFontBundle::default();
    assert!(bundle.changed);
    assert_eq!(bundle.texture.id, u64::MAX);
}

#[test]
fn changed_ui_texts_are_rendered_into_new_images() {
    let mut images: Assets<Image> = Assets::new();
    let mut fonts: Assets<ImageFont> = Assets::new();
    let atlas = images.add(texture(4, 2, 9));
    let font = fonts.add(font_over(atlas, "ab", 4, 2));
    let missing: Handle<ImageFont> = Handle::new(50);
    let ui = |text: &str, font: &Handle<ImageFont>, changed: bool| ImageFontUiBundle {
        text: ImageFontText { text: text.to_string(), font: font.clone(), font_height: Some(4) },
        image: UiImage { texture: Handle::default() },
        changed,
    };
    let mut bundles = vec![ui("b", &font, true), ui("a", &missing, true), ui("a", &font, false)];
    let errors = render_ui_images(&mut bundles, &fonts, &mut images);
    assert_eq!(errors, vec![(1, ImageFontPluginError::MissingImageFontAsset)]);
    assert_eq!(bundles[0].image.texture.id, 1);
    assert_eq!(bundles[1].image.texture.id, u64::MAX);
    assert_eq!(bundles[2].image.texture.id, u64::MAX);
    assert!(bundles.iter().all(|bundle| !bundle.changed));
    let shown = images.get(&bundles[0].image.texture).unwrap();
    assert_eq!((shown.width, shown.height), (4, 4));
    assert_eq!(&shown.data[0..4], &[2, 0, 9, 255]);
    assert_eq!(shown.sampler, ImageSampler::Nearest);
}

#[test]
fn font_from_char_map_numbers_its_glyphs() {
    let size = UVec2 { x: 6, y: 2 };
    let map = ImageFontLayout::Automatic("abca".to_string()).into_char_map(size).unwrap();
    let font = ImageFont::from_char_map(Handle::new(0), size, &map);
    let keys = font.index_map.keys();
    let mut sorted = keys.clone();
    sorted.sort();
    assert_eq!(sorted, vec!['a', 'b', 'c']);
    assert_eq!(font.layout.textures.len(), 3);
    let mut indices: Vec<usize> = keys.iter().map(|c| *font.index_map.get(*c).unwrap()).collect();
    indices.sort();
    assert_eq!(indices, vec![0, 1, 2]);
    for c in keys {
        let index = *font.index_map.get(c).unwrap();
        assert_eq!(Some(&font.layout.textures[index]), map.get(c));
    }
}

#[test]
fn removed_assets_are_gone_for_good() {
    let mut images: Assets<Image> = Assets::new();
    assert_eq!(images.room(), u64::MAX);
    let first = images.add(texture(1, 1, 0));
    let second = images.add(texture(2, 1, 0));
    assert_eq!(images.room(), u64::MAX - 2);
    assert_eq!(images.remove(&first).unwrap().width, 1);
    assert!(images.get(&first).is_none());
    assert!(images.remove(&first).is_none());
    assert!(images.remove(&Handle::new(9)).is_none());
    assert_eq!(images.get(&second).unwrap().width, 2);
    // The handle of what was removed is not issued again.
    assert_eq!(images.add(texture(3, 1, 0)).id, 2);
    assert_eq!(images.room(), u64::MAX - 3);
}

#[test]
fn a_pass_leaves_the_images_of_the_store_alone() {
    let mut images: Assets<Image> = Assets::new();
    let mut fonts: Assets<ImageFont> = Assets::new();
    let atlas = images.add(texture(4, 2, 9));
    let other = images.add(texture(3, 3, 1));
    let font = fonts.add(font_over(atlas.clone(), "ab", 4, 2));
    let atlas_before = images.get(&atlas).unwrap().clone();
    let other_before = images.get(&other).unwrap().clone();
    let mut bundles = vec![bundle("ab", &font, true), bundle("a", &font, false)];
    bundles[1].texture = other.clone();
    assert!(render_sprites(&mut bundles, &fonts, &mut images).is_empty());
    assert_eq!(images.get(&atlas).unwrap().data, atlas_before.data);
    assert_eq!(images.get(&other).unwrap().data, other_before.data);
    assert_eq!(bundles[0].texture.id, 2);
    assert_eq!(bundles[1].texture.id, other.id);
    let rendered = images.get(&bundles[0].texture).unwrap();
    assert_eq!(rendered.data.len(), (rendered.width * rendered.height * 4) as usize);
    assert_eq!(fonts.get(&font).unwrap().layout.textures.len(), 2);
}
