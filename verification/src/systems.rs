//! Keeping rendered texts up to date: which texts a change of fonts makes
//! stale, and the pass that renders the stale ones anew.

use crate::assets::{AssetEvent, Assets, Handle};
use crate::error::ImageFontPluginError;
use crate::font::ImageFont;
use crate::raster::{Image, ImageView};
use crate::render::{image_views, render_text, rendered, ImageFontText};
use std::collections::HashSet;
use vstd::prelude::*;

verus! {

/// A text together with the image it was last rendered to.
#[derive(Clone, Debug)]
pub struct ImageFontBundle {
    pub text: ImageFontText,
    /// The text will be rendered to this, so there is no need to set it up.
    pub texture: Handle<Image>,
    /// Whether the text or its font changed since the text was rendered.
    pub changed: bool,
}

impl Default for ImageFontBundle {
    /// The default text, not yet rendered.
    fn default() -> (bundle: Self)
        ensures
            bundle.text.text@ == Seq::<char>::empty(),
            bundle.text.font.id == u64::MAX,
            bundle.text.font_height is None,
            bundle.texture.id == u64::MAX,
            bundle.changed,
    {
        ImageFontBundle {
            text: ImageFontText::default(),
            texture: Handle::default(),
            changed: true,
        }
    }
}

/// An image as a user interface shows it.
#[derive(Clone, Debug)]
pub struct UiImage {
    pub texture: Handle<Image>,
}

/// A text together with the user-interface image it was last rendered to.
#[derive(Clone, Debug)]
pub struct ImageFontUiBundle {
    pub text: ImageFontText,
    /// The text will be rendered to this image's texture.
    pub image: UiImage,
    /// Whether the text or its font changed since the text was rendered.
    pub changed: bool,
}

/// The text, the image and the state of a user-interface bundle.
pub open spec fn as_sprite(bundle: ImageFontUiBundle) -> ImageFontBundle {
    ImageFontBundle { text: bundle.text, texture: bundle.image.texture, changed: bundle.changed }
}

/// The texts, the images and the states of user-interface bundles.
pub open spec fn as_sprites(bundles: Seq<ImageFontUiBundle>) -> Seq<ImageFontBundle> {
    bundles.map_values(|bundle: ImageFontUiBundle| as_sprite(bundle))
}

/// The event says that the font with the id `font` has new content.
pub open spec fn touches_font(event: AssetEvent, font: u64) -> bool {
    match event {
        AssetEvent::Modified { id } => id == font,
        AssetEvent::LoadedWithDependencies { id } => id == font,
        _ => false,
    }
}

/// One of the events says that the font with the id `font` has new content.
pub open spec fn font_changed(events: Seq<AssetEvent>, font: u64) -> bool {
    exists|i: int| 0 <= i < events.len() && touches_font(#[trigger] events[i], font)
}

/// The store `after` holds every image of the store `before`, as it was,
/// and what it holds besides has four bytes for each pixel and no more.
pub open spec fn grown_from(after: Map<u64, ImageView>, before: Map<u64, ImageView>) -> bool {
    &&& forall|id: u64|
        #![trigger before.contains_key(id)]
        before.contains_key(id) ==> after.contains_key(id) && after[id] == before[id]
    &&& forall|id: u64|
        #![trigger after.contains_key(id)]
        after.contains_key(id) && !before.contains_key(id) ==> after[id].is_exact()
}

/// What one pass over the bundles leaves behind.
pub struct RenderPass {
    /// The content of the image store.
    pub images: Map<u64, ImageView>,
    /// The number of handles that the image store has issued.
    pub issued: nat,
    /// For each bundle the id of the image it shows.
    pub textures: Seq<u64>,
    /// The bundles that could not be rendered, by index, each with the reason.
    pub errors: Seq<(usize, ImageFontPluginError)>,
}

/// One pass over `bundles`, from the first to the last, starting with the
/// image store as given.
///
/// A bundle that has not changed keeps its image. One that has changed is
/// rendered with the stores as they are when its turn comes: on success the
/// new image enters the store under the next handle and the bundle shows it,
/// on failure the bundle keeps its image and the failure is noted.
pub open spec fn render_pass(
    bundles: Seq<ImageFontBundle>,
    fonts: Map<u64, ImageFont>,
    images: Map<u64, ImageView>,
    issued: nat,
) -> RenderPass
    decreases bundles.len(),
{
    if bundles.len() == 0 {
        RenderPass { images, issued, textures: Seq::empty(), errors: Seq::empty() }
    } else {
        let before = render_pass(bundles.drop_last(), fonts, images, issued);
        let bundle = bundles.last();
        if !bundle.changed {
            RenderPass { textures: before.textures.push(bundle.texture.id), ..before }
        } else {
            match rendered(bundle.text, fonts, before.images) {
                Ok(image) => RenderPass {
                    images: before.images.insert(before.issued as u64, image),
                    issued: before.issued + 1,
                    textures: before.textures.push(before.issued as u64),
                    errors: before.errors,
                },
                Err(error) => RenderPass {
                    textures: before.textures.push(bundle.texture.id),
                    errors: before.errors.push(((bundles.len() - 1) as usize, error)),
                    ..before
                },
            }
        }
    }
}

/// A pass issues at most one handle per bundle, and says of each bundle
/// which image it shows.
pub proof fn lemma_render_pass_counts(
    bundles: Seq<ImageFontBundle>,
    fonts: Map<u64, ImageFont>,
    images: Map<u64, ImageView>,
    issued: nat,
)
    ensures
        render_pass(bundles, fonts, images, issued).textures.len() == bundles.len(),
        issued <= render_pass(bundles, fonts, images, issued).issued <= issued + bundles.len(),
    decreases bundles.len(),
{
    if bundles.len() > 0 {
        lemma_render_pass_counts(bundles.drop_last(), fonts, images, issued);
    }
}

/// What a pass has done when it is through with the first `n` bundles stays:
/// the bundles that follow change nothing of which images those show.
pub proof fn lemma_render_pass_prefix(
    bundles: Seq<ImageFontBundle>,
    fonts: Map<u64, ImageFont>,
    images: Map<u64, ImageView>,
    issued: nat,
    n: int,
)
    requires
        0 <= n <= bundles.len(),
    ensures
        render_pass(bundles.take(n), fonts, images, issued).textures == render_pass(
            bundles,
            fonts,
            images,
            issued,
        ).textures.take(n),
    decreases bundles.len(),
{
    if n == bundles.len() {
        assert(bundles.take(n) =~= bundles);
        lemma_render_pass_counts(bundles, fonts, images, issued);
        let textures = render_pass(bundles, fonts, images, issued).textures;
        assert(textures.take(n) =~= textures);
    } else {
        let shorter = bundles.drop_last();
        lemma_render_pass_prefix(shorter, fonts, images, issued, n);
        lemma_render_pass_counts(shorter, fonts, images, issued);
        assert(shorter.take(n) =~= bundles.take(n));
        let before = render_pass(shorter, fonts, images, issued).textures;
        let after = render_pass(bundles, fonts, images, issued).textures;
        assert(after.drop_last() =~= before);
        assert(after.take(n) =~= before.take(n));
    }
}

/// A changed bundle is rendered with the fonts as the store holds them at
/// the pass, never with what it showed before: if the rendering succeeds the
/// bundle shows an image under a handle that the pass has issued, and
/// otherwise it keeps the image that it had.
pub proof fn lemma_changed_bundle_is_rendered(
    bundles: Seq<ImageFontBundle>,
    fonts: Map<u64, ImageFont>,
    images: Map<u64, ImageView>,
    issued: nat,
    i: int,
)
    requires
        0 <= i < bundles.len(),
        bundles[i].changed,
    ensures
        ({
            let before = render_pass(bundles.take(i), fonts, images, issued);
            let shown = render_pass(bundles, fonts, images, issued).textures[i];
            match rendered(bundles[i].text, fonts, before.images) {
                Ok(image) => shown == before.issued as u64 && before.issued >= issued,
                Err(_) => shown == bundles[i].texture.id,
            }
        }),
{
    lemma_render_pass_prefix(bundles, fonts, images, issued, i + 1);
    lemma_render_pass_counts(bundles.take(i), fonts, images, issued);
    lemma_render_pass_counts(bundles, fonts, images, issued);
    let first = bundles.take(i + 1);
    assert(first.drop_last() =~= bundles.take(i));
    assert(first.last() == bundles[i]);
    let all = render_pass(bundles, fonts, images, issued).textures;
    assert(all.take(i + 1)[i] == all[i]);
}

/// The fonts that the events say have new content.
fn changed_fonts(events: &Vec<AssetEvent>) -> (fonts: HashSet<u64>)
    ensures
        forall|font: u64| #[trigger] fonts@.contains(font) <==> font_changed(events@, font),
{
    broadcast use vstd::std_specs::hash::group_hash_axioms;

    let mut fonts: HashSet<u64> = HashSet::new();
    let mut e: usize = 0;
    while e < events.len()
        invariant
            0 <= e <= events.len(),
            forall|font: u64| #[trigger]
                fonts@.contains(font) <==> font_changed(events@.take(e as int), font),
        decreases events.len() - e,
    {
        match events[e] {
            AssetEvent::Modified { id } => {
                fonts.insert(id);
            },
            AssetEvent::LoadedWithDependencies { id } => {
                fonts.insert(id);
            },
            _ => {},
        }
        proof {
            let shorter = events@.take(e as int);
            let longer = events@.take(e + 1);
            assert forall|font: u64| #[trigger]
                fonts@.contains(font) <==> font_changed(longer, font) by {
                if font_changed(longer, font) {
                    let i = choose|i: int|
                        0 <= i < longer.len() && touches_font(#[trigger] longer[i], font);
                    if i < e {
                        assert(touches_font(shorter[i], font));
                    }
                }
                if font_changed(shorter, font) {
                    let i = choose|i: int|
                        0 <= i < shorter.len() && touches_font(#[trigger] shorter[i], font);
                    assert(touches_font(longer[i], font));
                }
                if touches_font(events@[e as int], font) {
                    assert(touches_font(longer[e as int], font));
                }
            }
        }
        e = e + 1;
    }
    assert(events@.take(events.len() as int) =~= events@);
    fonts
}

/// Marks any text where the underlying [`ImageFont`] asset has changed as
/// dirty, which will cause it to be rerendered.
pub fn mark_changed_fonts_as_dirty(events: &Vec<AssetEvent>, bundles: &mut Vec<ImageFontBundle>)
    ensures
        final(bundles).len() == old(bundles).len(),
        forall|i: int|
            0 <= i < old(bundles).len() ==> {
                &&& (#[trigger] final(bundles)[i]).text == old(bundles)[i].text
                &&& final(bundles)[i].texture == old(bundles)[i].texture
                &&& final(bundles)[i].changed == (old(bundles)[i].changed || font_changed(
                    events@,
                    old(bundles)[i].text.font.id,
                ))
            },
{
    broadcast use vstd::std_specs::hash::group_hash_axioms;

    let stale = changed_fonts(events);
    let mut i: usize = 0;
    while i < bundles.len()
        invariant
            0 <= i <= bundles.len(),
            bundles.len() == old(bundles).len(),
            forall|font: u64| #[trigger] stale@.contains(font) <==> font_changed(events@, font),
            forall|j: int|
                0 <= j < bundles.len() ==> {
                    &&& (#[trigger] bundles[j]).text == old(bundles)[j].text
                    &&& bundles[j].texture == old(bundles)[j].texture
                    &&& bundles[j].changed == if j < i {
                        old(bundles)[j].changed || font_changed(
                            events@,
                            old(bundles)[j].text.font.id,
                        )
                    } else {
                        old(bundles)[j].changed
                    }
                },
        decreases bundles.len() - i,
    {
        if stale.contains(&bundles[i].text.font.id) {
            bundles[i].changed = true;
        }
        i = i + 1;
    }
}

/// Renders one changed text into a new image of the store. Returns the
/// handle of that image, or notes under `index` why there is none.
fn render_changed(
    text: &ImageFontText,
    index: usize,
    image_fonts: &Assets<ImageFont>,
    images: &mut Assets<Image>,
    errors: &mut Vec<(usize, ImageFontPluginError)>,
) -> (handle: Option<Handle<Image>>)
    requires
        old(images).issued() < u64::MAX,
    ensures
        match rendered(*text, image_fonts@, image_views(old(images)@)) {
            Ok(image) => {
                &&& handle matches Some(h)
                &&& h.id == old(images).issued()
                &&& !image_views(old(images)@).contains_key(h.id)
                &&& image.is_exact()
                &&& image_views(final(images)@) == image_views(old(images)@).insert(h.id, image)
                &&& final(images).issued() == old(images).issued() + 1
                &&& final(errors)@ == old(errors)@
            },
            Err(error) => {
                &&& handle is None
                &&& image_views(final(images)@) == image_views(old(images)@)
                &&& final(images).issued() == old(images).issued()
                &&& final(errors)@ == old(errors)@.push((index, error))
            },
        },
{
    match render_text(text, image_fonts, images) {
        Ok(image) => {
            let ghost before = images@;
            let ghost view = image@;
            proof {
                images.lemma_keys_were_issued();
            }
            let handle = images.add(image);
            assert(image_views(images@) =~= image_views(before).insert(handle.id, view));
            Some(handle)
        },
        Err(error) => {
            errors.push((index, error));
            None
        },
    }
}

/// Renders each changed [`ImageFontBundle`] into a new image of the store,
/// lets the bundle show that image, and returns the bundles that could not
/// be rendered, each with the reason. This is mainly for use with sprites.
pub fn render_sprites(
    bundles: &mut Vec<ImageFontBundle>,
    image_fonts: &Assets<ImageFont>,
    images: &mut Assets<Image>,
) -> (errors: Vec<(usize, ImageFontPluginError)>)
    requires
        old(images).issued() + old(bundles).len() <= u64::MAX,
    ensures
        final(bundles).len() == old(bundles).len(),
        ({
            let pass = render_pass(
                old(bundles)@,
                image_fonts@,
                image_views(old(images)@),
                old(images).issued(),
            );
            &&& image_views(final(images)@) == pass.images
            &&& final(images).issued() == pass.issued
            &&& errors@ == pass.errors
            &&& forall|i: int|
                0 <= i < old(bundles).len() ==> {
                    &&& (#[trigger] final(bundles)[i]).text == old(bundles)[i].text
                    &&& final(bundles)[i].texture.id == pass.textures[i]
                    &&& !final(bundles)[i].changed
                }
        }),
        grown_from(image_views(final(images)@), image_views(old(images)@)),
        final(images).issued() >= old(images).issued(),
        forall|i: int|
            0 <= i < old(bundles).len() && !old(bundles)[i].changed
                ==> (#[trigger] final(bundles)[i]).texture == old(bundles)[i].texture,
{
    let ghost start = old(bundles)@;
    let ghost first_images = image_views(old(images)@);
    let ghost first_issued = old(images).issued();
    let mut errors: Vec<(usize, ImageFontPluginError)> = Vec::new();
    let mut i: usize = 0;
    while i < bundles.len()
        invariant
            0 <= i <= bundles.len(),
            bundles.len() == start.len(),
            first_issued + start.len() <= u64::MAX,
            ({
                let pass = render_pass(
                    start.take(i as int),
                    image_fonts@,
                    first_images,
                    first_issued,
                );
                &&& image_views(images@) == pass.images
                &&& images.issued() == pass.issued
                &&& errors@ == pass.errors
                &&& pass.textures.len() == i
                &&& forall|j: int|
                    0 <= j < i ==> {
                        &&& (#[trigger] bundles[j]).text == start[j].text
                        &&& bundles[j].texture.id == pass.textures[j]
                        &&& !bundles[j].changed
                        &&& !start[j].changed ==> bundles[j].texture == start[j].texture
                    }
            }),
            grown_from(image_views(images@), first_images),
            images.issued() >= first_issued,
            forall|j: int| i <= j < bundles.len() ==> #[trigger] bundles[j] == start[j],
        decreases bundles.len() - i,
    {
        proof {
            assert(start.take(i + 1).drop_last() =~= start.take(i as int));
            lemma_render_pass_counts(
                start.take(i as int),
                image_fonts@,
                first_images,
                first_issued,
            );
        }
        if bundles[i].changed {
            match render_changed(&bundles[i].text, i, image_fonts, images, &mut errors) {
                Some(handle) => {
                    bundles[i].texture = handle;
                },
                None => {},
            }
            bundles[i].changed = false;
        }
        i = i + 1;
    }
    assert(start.take(start.len() as int) =~= start);
    errors
}

/// Renders each changed [`ImageFontUiBundle`] into a new image of the store,
/// lets the bundle's [`UiImage`] show that image, and returns the bundles
/// that could not be rendered, each with the reason.
pub fn render_ui_images(
    bundles: &mut Vec<ImageFontUiBundle>,
    image_fonts: &Assets<ImageFont>,
    images: &mut Assets<Image>,
) -> (errors: Vec<(usize, ImageFontPluginError)>)
    requires
        old(images).issued() + old(bundles).len() <= u64::MAX,
    ensures
        final(bundles).len() == old(bundles).len(),
        ({
            let pass = render_pass(
                as_sprites(old(bundles)@),
                image_fonts@,
                image_views(old(images)@),
                old(images).issued(),
            );
            &&& image_views(final(images)@) == pass.images
            &&& final(images).issued() == pass.issued
            &&& errors@ == pass.errors
            &&& forall|i: int|
                0 <= i < old(bundles).len() ==> {
                    &&& (#[trigger] final(bundles)[i]).text == old(bundles)[i].text
                    &&& final(bundles)[i].image.texture.id == pass.textures[i]
                    &&& !final(bundles)[i].changed
                }
        }),
        grown_from(image_views(final(images)@), image_views(old(images)@)),
        final(images).issued() >= old(images).issued(),
        forall|i: int|
            0 <= i < old(bundles).len() && !old(bundles)[i].changed
                ==> (#[trigger] final(bundles)[i]).image == old(bundles)[i].image,
{
    let ghost start = as_sprites(old(bundles)@);
    let ghost first_images = image_views(old(images)@);
    let ghost first_issued = old(images).issued();
    let mut errors: Vec<(usize, ImageFontPluginError)> = Vec::new();
    let mut i: usize = 0;
    while i < bundles.len()
        invariant
            0 <= i <= bundles.len(),
            bundles.len() == start.len(),
            start == as_sprites(old(bundles)@),
            first_issued + start.len() <= u64::MAX,
            ({
                let pass = render_pass(
                    start.take(i as int),
                    image_fonts@,
                    first_images,
                    first_issued,
                );
                &&& image_views(images@) == pass.images
                &&& images.issued() == pass.issued
                &&& errors@ == pass.errors
                &&& pass.textures.len() == i
                &&& forall|j: int|
                    0 <= j < i ==> {
                        &&& (#[trigger] bundles[j]).text == start[j].text
                        &&& bundles[j].image.texture.id == pass.textures[j]
                        &&& !bundles[j].changed
                        &&& !start[j].changed ==> bundles[j].image == old(bundles)[j].image
                    }
            }),
            grown_from(image_views(images@), first_images),
            images.issued() >= first_issued,
            forall|j: int| i <= j < bundles.len() ==> #[trigger] bundles[j] == old(bundles)[j],
        decreases bundles.len() - i,
    {
        proof {
            assert(start.take(i + 1).drop_last() =~= start.take(i as int));
            lemma_render_pass_counts(
                start.take(i as int),
                image_fonts@,
                first_images,
                first_issued,
            );
        }
        if bundles[i].changed {
            match render_changed(&bundles[i].text, i, image_fonts, images, &mut errors) {
                Some(handle) => {
                    bundles[i].image.texture = handle;
                },
                None => {},
            }
            bundles[i].changed = false;
        }
        i = i + 1;
    }
    assert(start.take(start.len() as int) =~= start);
    errors
}

} // verus!
