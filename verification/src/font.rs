//! Fonts: a texture and the place of each character's glyph in it.

use crate::assets::Handle;
use crate::char_map::CharMap;
use crate::error::ImageFontLoadError;
use crate::geometry::{GlyphRect, UVec2};
use crate::layout::ImageFontLayout;
use crate::raster::Image;
use crate::sequences::{chars_of, lemma_take_contains};
use vstd::prelude::*;

verus! {

/// The rectangles into which a texture is cut.
#[derive(Clone, Debug)]
pub struct TextureAtlasLayout {
    /// The size of the whole texture.
    pub size: UVec2,
    /// The rectangles, in no particular order.
    pub textures: Vec<GlyphRect>,
}

/// An image font as well as the mapping of characters to regions inside it.
#[derive(Clone, Debug)]
pub struct ImageFont {
    pub layout: TextureAtlasLayout,
    pub texture: Handle<Image>,
    /// The glyph used to render `c` is contained in the part of the texture
    /// pointed to by `layout.textures[index_map[c]]`.
    pub index_map: CharMap<usize>,
}

/// Whether a character is one of those that `glyphs` has a glyph for.
pub open spec fn supported(glyphs: Map<char, GlyphRect>) -> spec_fn(char) -> bool {
    |c: char| glyphs.contains_key(c)
}

/// The characters of `text` that `glyphs` has a glyph for, in their order
/// and as often as they occur.
pub open spec fn filter_text(text: Seq<char>, glyphs: Map<char, GlyphRect>) -> Seq<char> {
    text.filter(supported(glyphs))
}

/// The glyph of a character.
pub open spec fn glyph_of(glyphs: Map<char, GlyphRect>) -> spec_fn(char) -> GlyphRect {
    |c: char| glyphs[c]
}

/// The glyphs of the characters of `text` that have one, in the order of
/// the text.
pub open spec fn glyph_rects(text: Seq<char>, glyphs: Map<char, GlyphRect>) -> Seq<GlyphRect> {
    filter_text(text, glyphs).map_values(glyph_of(glyphs))
}

/// `String::push` appends the character to the end of the string.
pub assume_specification[ String::push ](s: &mut String, ch: char)
    ensures
        final(s)@ == old(s)@.push(ch),
;

impl ImageFont {
    /// The glyph of each character that the font supports.
    ///
    /// A character is supported if the index map sends it to one of the
    /// layout's rectangles.
    pub open spec fn glyphs(&self) -> Map<char, GlyphRect> {
        Map::new(
            |c: char|
                self.index_map@.contains_key(c) && self.index_map@[c] < self.layout.textures.len(),
            |c: char| self.layout.textures[self.index_map@[c] as int],
        )
    }

    /// The rectangle at `i` in the layout is the glyph of some character.
    pub open spec fn is_glyph(&self, i: int) -> bool {
        exists|c: char| self.index_map@.contains_key(c) && #[trigger] self.index_map@[c] == i
    }

    /// The index map and the layout fit each other: every key is sent to a
    /// rectangle of the layout, different keys to different rectangles, and
    /// every rectangle is the glyph of a key.
    pub open spec fn is_tight(&self) -> bool {
        &&& forall|c: char| #[trigger]
            self.index_map@.contains_key(c) ==> self.index_map@[c] < self.layout.textures.len()
        &&& forall|c: char, d: char|
            #![trigger self.index_map@[c], self.index_map@[d]]
            self.index_map@.contains_key(c) && self.index_map@.contains_key(d) && c != d
                ==> self.index_map@[c] != self.index_map@[d]
        &&& forall|i: int| 0 <= i < self.layout.textures.len() ==> #[trigger] self.is_glyph(i)
    }

    /// The font over the texture `texture` of the size `size` whose glyphs
    /// are those of `char_map`: the index map has the keys of `char_map`,
    /// and sends each to a rectangle of its own; the layout has no other
    /// rectangles.
    pub fn from_char_map(
        texture: Handle<Image>,
        size: UVec2,
        char_map: &CharMap<GlyphRect>,
    ) -> (font: Self)
        ensures
            font.glyphs() == char_map@,
            font.texture == texture,
            font.layout.size == size,
            font.layout.textures.len() == char_map@.len(),
            forall|c: char| #[trigger]
                font.index_map@.contains_key(c) <==> char_map@.contains_key(c),
            forall|c: char| #[trigger]
                font.index_map@.contains_key(c) ==> {
                    &&& font.index_map@[c] < font.layout.textures.len()
                    &&& font.layout.textures[font.index_map@[c] as int] == char_map@[c]
                },
            forall|c: char, d: char|
                #![trigger font.index_map@[c], font.index_map@[d]]
                font.index_map@.contains_key(c) && font.index_map@.contains_key(d) && c != d
                    ==> font.index_map@[c] != font.index_map@[d],
            forall|i: int| 0 <= i < font.layout.textures.len() ==> #[trigger] font.is_glyph(i),
            font.is_tight(),
    {
        let keys = char_map.keys();
        let mut index_map: CharMap<usize> = CharMap::new();
        let mut textures: Vec<GlyphRect> = Vec::new();
        let mut i: usize = 0;
        while i < keys.len()
            invariant
                0 <= i <= keys.len(),
                textures.len() == i,
                keys@.no_duplicates(),
                forall|c: char| keys@.contains(c) <==> char_map@.contains_key(c),
                forall|c: char| index_map@.contains_key(c) <==> keys@.take(i as int).contains(c),
                forall|c: char| #[trigger]
                    index_map@.contains_key(c) ==> {
                        &&& index_map@[c] < i
                        &&& textures@[index_map@[c] as int] == char_map@[c]
                    },
                forall|j: int|
                    0 <= j < i ==> index_map@.contains_key(#[trigger] keys@[j])
                        && index_map@[keys@[j]] == j,
            decreases keys.len() - i,
        {
            let c = keys[i];
            let ghost before = index_map@;
            let ghost old_textures = textures@;
            proof {
                assert(keys@[i as int] == c);
                assert(keys@.contains(c));
                lemma_take_contains(keys@, i as int);
            }
            match char_map.get(c) {
                Some(rect) => {
                    index_map.insert(c, i);
                    textures.push(*rect);
                },
                None => {
                    assert(false);
                },
            }
            assert(index_map@ == before.insert(c, i));
            assert(textures@ == old_textures.push(char_map@[c]));
            assert forall|d: char| #[trigger] index_map@.contains_key(d) implies index_map@[d] < i
                + 1 && textures@[index_map@[d] as int] == char_map@[d] by {
                if d != c {
                    assert(before.contains_key(d));
                    assert(index_map@[d] == before[d]);
                    assert(old_textures[before[d] as int] == char_map@[d]);
                } else {
                    assert(index_map@[d] == i);
                }
            }
            assert forall|j: int| 0 <= j < i + 1 implies index_map@.contains_key(
                #[trigger] keys@[j],
            ) && index_map@[keys@[j]] == j by {
                if j < i {
                    assert(keys@[j] != keys@[i as int]);
                    assert(before.contains_key(keys@[j]));
                }
            }
            assert forall|d: char| index_map@.contains_key(d) <==> keys@.take(i + 1).contains(
                d,
            ) by {
                assert(index_map@.contains_key(d) <==> before.contains_key(d) || d == c);
                assert(before.contains_key(d) <==> keys@.take(i as int).contains(d));
                assert(keys@.take(i + 1).contains(d) <==> keys@.take(i as int).contains(d) || d
                    == keys@[i as int]);
            }
            i = i + 1;
        }
        assert(keys@.take(keys.len() as int) =~= keys@);
        let font = ImageFont { layout: TextureAtlasLayout { size, textures }, texture, index_map };
        assert forall|c: char| #[trigger]
            font.index_map@.contains_key(c) <==> char_map@.contains_key(c) by {
            assert(index_map@.contains_key(c) <==> keys@.contains(c));
        }
        assert(font.glyphs() =~= char_map@);
        assert forall|c: char, d: char|
            #![trigger font.index_map@[c], font.index_map@[d]]
            font.index_map@.contains_key(c) && font.index_map@.contains_key(d) && c
                != d implies font.index_map@[c] != font.index_map@[d] by {
            assert(keys@.contains(c) && keys@.contains(d));
            let a = choose|a: int| 0 <= a < keys@.len() && keys@[a] == c;
            let b = choose|b: int| 0 <= b < keys@.len() && keys@[b] == d;
            assert(index_map@[keys@[a]] == a && index_map@[keys@[b]] == b);
        }
        assert forall|j: int| 0 <= j < font.layout.textures.len() implies #[trigger] font.is_glyph(
            j,
        ) by {
            let c = keys@[j];
            assert(font.index_map@.contains_key(c) && font.index_map@[c] == j);
        }
        font
    }

    /// The font over the texture `texture` of the size `size` whose glyphs
    /// lie where `layout` says, or the reason why `layout` says nothing.
    pub fn from_layout(
        layout: ImageFontLayout,
        texture: Handle<Image>,
        size: UVec2,
    ) -> (out: Result<Self, ImageFontLoadError>)
        ensures
            match out {
                Ok(font) => {
                    &&& layout.spec_char_map(size) == Ok::<
                        Map<char, GlyphRect>,
                        ImageFontLoadError,
                    >(font.glyphs())
                    &&& font.texture == texture
                    &&& font.layout.size == size
                    &&& font.layout.textures.len() == font.glyphs().len()
                    &&& forall|c: char| #[trigger]
                        font.index_map@.contains_key(c) <==> font.glyphs().contains_key(c)
                    &&& font.is_tight()
                },
                Err(error) => layout.spec_char_map(size) == Err::<
                    Map<char, GlyphRect>,
                    ImageFontLoadError,
                >(error),
            },
    {
        match layout.into_char_map(size) {
            Ok(char_map) => Ok(Self::from_char_map(texture, size, &char_map)),
            Err(error) => Err(error),
        }
    }

    /// The glyph of `c`, if the font supports `c`.
    pub fn glyph(&self, c: char) -> (rect: Option<GlyphRect>)
        ensures
            rect is Some <==> self.glyphs().contains_key(c),
            rect matches Some(r) ==> r == self.glyphs()[c],
    {
        match self.index_map.get(c) {
            Some(at) => {
                let at = *at;
                if at < self.layout.textures.len() {
                    Some(self.layout.textures[at])
                } else {
                    None
                }
            },
            None => None,
        }
    }

    /// The characters of `s` that the font supports, in their order and as
    /// often as they occur.
    pub fn filter_string(&self, s: &str) -> (filtered: String)
        ensures
            filtered@ == filter_text(s@, self.glyphs()),
    {
        let chars = chars_of(s);
        let mut filtered = String::new();
        let mut i: usize = 0;
        assert(chars@.take(0).filter(supported(self.glyphs())) =~= Seq::<char>::empty()) by {
            reveal(Seq::filter);
        }
        while i < chars.len()
            invariant
                0 <= i <= chars.len(),
                filtered@ == chars@.take(i as int).filter(supported(self.glyphs())),
            decreases chars.len() - i,
        {
            let c = chars[i];
            proof {
                reveal(Seq::filter);
                assert(chars@.take(i + 1).drop_last() =~= chars@.take(i as int));
            }
            if self.glyph(c).is_some() {
                filtered.push(c);
            }
            i = i + 1;
        }
        assert(chars@.take(chars.len() as int) =~= chars@);
        filtered
    }

    /// The glyphs of the characters of `s` that the font supports, in the
    /// order of `s`.
    pub fn glyphs_of(&self, s: &str) -> (rects: Vec<GlyphRect>)
        ensures
            rects@ == glyph_rects(s@, self.glyphs()),
    {
        let chars = chars_of(s);
        let mut rects: Vec<GlyphRect> = Vec::new();
        let mut i: usize = 0;
        assert(chars@.take(0).filter(supported(self.glyphs())) =~= Seq::<char>::empty()) by {
            reveal(Seq::filter);
        }
        while i < chars.len()
            invariant
                0 <= i <= chars.len(),
                rects@ == glyph_rects(chars@.take(i as int), self.glyphs()),
            decreases chars.len() - i,
        {
            let c = chars[i];
            proof {
                reveal(Seq::filter);
                assert(chars@.take(i + 1).drop_last() =~= chars@.take(i as int));
                let before = filter_text(chars@.take(i as int), self.glyphs());
                if self.glyphs().contains_key(c) {
                    assert(before.push(c).map_values(glyph_of(self.glyphs()))
                        =~= before.map_values(glyph_of(self.glyphs())).push(self.glyphs()[c]));
                }
            }
            match self.glyph(c) {
                Some(rect) => {
                    rects.push(rect);
                },
                None => {},
            }
            i = i + 1;
        }
        assert(chars@.take(chars.len() as int) =~= chars@);
        rects
    }
}

/// Filtering keeps the order of the text: what is left of two texts put
/// together is what is left of the first, then what is left of the second.
pub proof fn lemma_filter_text_concat(
    first: Seq<char>,
    second: Seq<char>,
    glyphs: Map<char, GlyphRect>,
)
    ensures
        filter_text(first + second, glyphs) == filter_text(first, glyphs) + filter_text(
            second,
            glyphs,
        ),
{
    Seq::filter_distributes_over_add(first, second, supported(glyphs));
}

/// Filtering keeps every occurrence of a character that has a glyph and
/// none of a character that has not.
pub proof fn lemma_filter_text_single(c: char, glyphs: Map<char, GlyphRect>)
    ensures
        filter_text(seq![c], glyphs) == if glyphs.contains_key(c) {
            seq![c]
        } else {
            Seq::<char>::empty()
        },
{
    reveal(Seq::filter);
    assert(seq![c].drop_last().filter(supported(glyphs)) =~= Seq::<char>::empty());
    assert(Seq::<char>::empty().push(c) =~= seq![c]);
}

/// A text all of whose characters have a glyph is left as it is.
pub proof fn lemma_filter_text_keeps_supported(text: Seq<char>, glyphs: Map<char, GlyphRect>)
    requires
        forall|i: int| 0 <= i < text.len() ==> glyphs.contains_key(#[trigger] text[i]),
    ensures
        filter_text(text, glyphs) == text,
    decreases text.len(),
{
    reveal(Seq::filter);
    if text.len() > 0 {
        lemma_filter_text_keeps_supported(text.drop_last(), glyphs);
        assert(text.drop_last().push(text.last()) =~= text);
    }
}

/// Of a text none of whose characters has a glyph nothing is left.
pub proof fn lemma_filter_text_drops_unsupported(text: Seq<char>, glyphs: Map<char, GlyphRect>)
    requires
        forall|i: int| 0 <= i < text.len() ==> !glyphs.contains_key(#[trigger] text[i]),
    ensures
        filter_text(text, glyphs) == Seq::<char>::empty(),
    decreases text.len(),
{
    reveal(Seq::filter);
    if text.len() > 0 {
        lemma_filter_text_drops_unsupported(text.drop_last(), glyphs);
    }
}

} // verus!
