//! Descriptions of where the glyphs of a font lie in its texture, and their
//! resolution into one rectangle per character.

use crate::char_map::CharMap;
use crate::error::ImageFontLoadError;
use crate::geometry::{GlyphRect, URect, UVec2};
use crate::sequences::{chars_of, lemma_take_contains, lemma_take_step};
use vstd::prelude::*;

verus! {

/// Human-readable way to specify where the characters in an image font are.
#[derive(Clone, Debug)]
pub enum ImageFontLayout {
    /// Interprets the string as a grid and slices up the texture accordingly:
    /// every character of a line stands for one cell of its row. One leading
    /// and one trailing newline are ignored; spaces are not, since a font
    /// may use them as padding.
    Automatic(String),
    /// Gives the top-left corner of each character's glyph, where all
    /// glyphs have the same size.
    ManualMonospace {
        /// The size of every glyph.
        size: UVec2,
        /// The top-left corner of each character's glyph.
        coords: CharMap<UVec2>,
    },
    /// Gives the rectangle of each character's glyph. The most general case.
    Manual(CharMap<URect>),
}

/// `s` without one leading and one trailing newline.
pub open spec fn trim_newlines(s: Seq<char>) -> Seq<char> {
    let start: int = if s.len() > 0 && s[0] == '\n' {
        1
    } else {
        0
    };
    let end: int = if s.len() > start && s.last() == '\n' {
        s.len() - 1
    } else {
        s.len() as int
    };
    s.subrange(start, end)
}

/// The number of characters of `s` before its first newline, or all of them
/// if it has none.
pub open spec fn line_end(s: Seq<char>) -> nat
    decreases s.len(),
{
    if s.len() == 0 || s[0] == '\n' {
        0
    } else {
        1 + line_end(s.drop_first())
    }
}

/// `line` without the carriage return at its end, if it has one there.
pub open spec fn without_carriage_return(line: Seq<char>) -> Seq<char> {
    if line.len() > 0 && line.last() == '\r' {
        line.drop_last()
    } else {
        line
    }
}

/// The lines of `s`.
///
/// A line ends at a newline; a carriage return directly before that newline
/// belongs to the line ending. What follows the last newline is a line of
/// its own unless it is empty, so the empty string has no lines.
pub open spec fn split_lines(s: Seq<char>) -> Seq<Seq<char>>
    decreases s.len(),
{
    if s.len() == 0 {
        Seq::empty()
    } else {
        let end = line_end(s) as int;
        if end >= s.len() {
            seq![s]
        } else {
            seq![without_carriage_return(s.take(end))] + split_lines(s.skip(end + 1))
        }
    }
}

/// The length of the longest of `lines`, zero if there is none.
pub open spec fn longest(lines: Seq<Seq<char>>) -> nat
    decreases lines.len(),
{
    if lines.len() == 0 {
        0
    } else {
        let before = longest(lines.drop_last());
        if lines.last().len() > before {
            lines.last().len()
        } else {
            before
        }
    }
}

/// The cell in row `row` and column `column` of a grid of cells of the
/// given size.
pub open spec fn cell_rect(cell_width: nat, cell_height: nat, row: int, column: int) -> GlyphRect {
    GlyphRect {
        min_x: (cell_width * column) as u64,
        min_y: (cell_height * row) as u64,
        max_x: (cell_width * (column + 1)) as u64,
        max_y: (cell_height * (row + 1)) as u64,
    }
}

/// `map` after each character of `line`, from left to right, was given the
/// cell of its column in row `row`.
pub open spec fn with_row(
    map: Map<char, GlyphRect>,
    line: Seq<char>,
    row: int,
    cell_width: nat,
    cell_height: nat,
) -> Map<char, GlyphRect>
    decreases line.len(),
{
    if line.len() == 0 {
        map
    } else {
        with_row(map, line.drop_last(), row, cell_width, cell_height).insert(
            line.last(),
            cell_rect(cell_width, cell_height, row, line.len() - 1),
        )
    }
}

/// The map in which each character of `lines`, taken row by row from the
/// top and within a row from the left, was given its cell.
pub open spec fn with_rows(lines: Seq<Seq<char>>, cell_width: nat, cell_height: nat) -> Map<
    char,
    GlyphRect,
>
    decreases lines.len(),
{
    if lines.len() == 0 {
        Map::empty()
    } else {
        with_row(
            with_rows(lines.drop_last(), cell_width, cell_height),
            lines.last(),
            lines.len() - 1,
            cell_width,
            cell_height,
        )
    }
}

/// The glyph rectangles that a grid description stands for on a texture of
/// the given size.
///
/// The grid has as many rows as the description has lines and as many
/// columns as its longest line has characters; a cell is the texture's size
/// divided by those counts, rounded down.
pub open spec fn grid_char_map(description: Seq<char>, size: UVec2) -> Result<
    Map<char, GlyphRect>,
    ImageFontLoadError,
> {
    let lines = split_lines(trim_newlines(description));
    let columns = longest(lines);
    if columns == 0 {
        Err(ImageFontLoadError::EmptyDescription)
    } else {
        Ok(with_rows(lines, (size.x as nat) / columns, (size.y as nat) / lines.len()))
    }
}

/// The glyph rectangles that top-left corners stand for when every glyph
/// has the size `size`.
pub open spec fn monospace_char_map(size: UVec2, coords: Map<char, UVec2>) -> Map<char, GlyphRect> {
    Map::new(
        |c: char| coords.contains_key(c),
        |c: char| GlyphRect::spec_from_size(coords[c], size),
    )
}

/// The glyph rectangles that the rectangles of a description stand for.
pub open spec fn manual_char_map(rects: Map<char, URect>) -> Map<char, GlyphRect> {
    Map::new(|c: char| rects.contains_key(c), |c: char| GlyphRect::spec_from_urect(rects[c]))
}

impl ImageFontLayout {
    /// The map from each character to its glyph's rectangle that this
    /// description stands for on a texture of the size `size`.
    pub open spec fn spec_char_map(self, size: UVec2) -> Result<
        Map<char, GlyphRect>,
        ImageFontLoadError,
    > {
        match self {
            ImageFontLayout::Automatic(description) => grid_char_map(description@, size),
            ImageFontLayout::ManualMonospace { size: glyph_size, coords } => Ok(
                monospace_char_map(glyph_size, coords@),
            ),
            ImageFontLayout::Manual(rects) => Ok(manual_char_map(rects@)),
        }
    }
}

/// The lines that the ranges `ranges` cut out of `chars`.
pub open spec fn lines_in(chars: Seq<char>, ranges: Seq<(usize, usize)>) -> Seq<Seq<char>> {
    Seq::new(ranges.len(), |r: int| chars.subrange(ranges[r].0 as int, ranges[r].1 as int))
}

/// Every one of `ranges` is a range of indices into a sequence of `len` items.
pub open spec fn ranges_within(ranges: Seq<(usize, usize)>, len: nat) -> bool {
    forall|r: int| 0 <= r < ranges.len() ==> (#[trigger] ranges[r]).0 <= ranges[r].1 <= len
}

proof fn lemma_line_end(s: Seq<char>, k: int)
    requires
        0 <= k <= s.len(),
        forall|j: int| 0 <= j < k ==> s[j] != '\n',
        k == s.len() || s[k] == '\n',
    ensures
        line_end(s) == k,
    decreases k,
{
    if k > 0 {
        lemma_line_end(s.drop_first(), k - 1);
    }
}

/// No line is longer than the longest.
pub proof fn lemma_longest_bounds(lines: Seq<Seq<char>>, i: int)
    requires
        0 <= i < lines.len(),
    ensures
        lines[i].len() <= longest(lines),
    decreases lines.len(),
{
    if i < lines.len() - 1 {
        lemma_longest_bounds(lines.drop_last(), i);
    }
}

/// Cuts `chars[start..end]` into its lines, each given as a range of
/// indices into `chars`.
fn line_ranges(chars: &Vec<char>, start: usize, end: usize) -> (ranges: Vec<(usize, usize)>)
    requires
        start <= end <= chars.len(),
    ensures
        ranges_within(ranges@, chars.len() as nat),
        lines_in(chars@, ranges@) == split_lines(chars@.subrange(start as int, end as int)),
{
    let ghost text = chars@.subrange(start as int, end as int);
    let mut ranges: Vec<(usize, usize)> = Vec::new();
    let mut line_start = start;
    let mut i = start;
    assert(lines_in(chars@, ranges@) =~= Seq::<Seq<char>>::empty());
    assert(Seq::<Seq<char>>::empty() + split_lines(text) =~= split_lines(text));
    while i < end
        invariant
            start <= line_start <= i <= end <= chars.len(),
            text == chars@.subrange(start as int, end as int),
            forall|j: int| line_start <= j < i ==> chars[j] != '\n',
            ranges_within(ranges@, chars.len() as nat),
            split_lines(text) == lines_in(chars@, ranges@) + split_lines(
                chars@.subrange(line_start as int, end as int),
            ),
        decreases end - i,
    {
        if chars[i] == '\n' {
            let mut line_stop = i;
            if line_stop > line_start && chars[line_stop - 1] == '\r' {
                line_stop = line_stop - 1;
            }
            proof {
                let rest = chars@.subrange(line_start as int, end as int);
                let k = i - line_start;
                lemma_line_end(rest, k);
                assert(rest.take(k) =~= chars@.subrange(line_start as int, i as int));
                assert(rest.skip(k + 1) =~= chars@.subrange(i + 1, end as int));
                let line = chars@.subrange(line_start as int, line_stop as int);
                assert(without_carriage_return(rest.take(k)) =~= line);
                let before = lines_in(chars@, ranges@);
                let after = lines_in(chars@, ranges@.push((line_start, line_stop)));
                assert(after =~= before + seq![line]);
                assert(before + (seq![line] + split_lines(rest.skip(k + 1))) =~= (before
                    + seq![line]) + split_lines(rest.skip(k + 1)));
            }
            ranges.push((line_start, line_stop));
            line_start = i + 1;
        }
        i = i + 1;
    }
    proof {
        let rest = chars@.subrange(line_start as int, end as int);
        lemma_line_end(rest, rest.len() as int);
        if line_start < end {
            let before = lines_in(chars@, ranges@);
            let after = lines_in(chars@, ranges@.push((line_start, end)));
            assert(after =~= before + seq![rest]);
        } else {
            assert(lines_in(chars@, ranges@) + Seq::<Seq<char>>::empty() =~= lines_in(
                chars@,
                ranges@,
            ));
        }
    }
    if line_start < end {
        ranges.push((line_start, end));
    }
    ranges
}

/// The length of the longest of the lines `ranges`.
fn longest_range(ranges: &Vec<(usize, usize)>, Ghost(chars): Ghost<Seq<char>>) -> (columns: usize)
    requires
        ranges_within(ranges@, chars.len()),
    ensures
        columns == longest(lines_in(chars, ranges@)),
{
    let ghost lines = lines_in(chars, ranges@);
    let mut columns: usize = 0;
    let mut r: usize = 0;
    while r < ranges.len()
        invariant
            0 <= r <= ranges.len(),
            lines == lines_in(chars, ranges@),
            ranges_within(ranges@, chars.len()),
            columns == longest(lines.take(r as int)),
        decreases ranges.len() - r,
    {
        proof {
            lemma_take_step(lines, r as int);
        }
        let range = ranges[r];
        let len = range.1 - range.0;
        if len > columns {
            columns = len;
        }
        r = r + 1;
    }
    assert(lines.take(lines.len() as int) =~= lines);
    columns
}

proof fn lemma_cell_in_grid(cell: nat, index: nat, count: nat, extent: nat)
    requires
        index < count,
        cell * count <= extent,
    ensures
        cell * index <= cell * (index + 1) <= extent,
{
    assert(cell * index <= cell * (index + 1) <= cell * count) by (nonlinear_arith)
        requires
            index < count,
    ;
}

/// Gives each character of the lines `ranges` of `chars` its cell, row by
/// row from the top and within a row from the left.
fn grid_cells(
    chars: &Vec<char>,
    ranges: &Vec<(usize, usize)>,
    cell_width: u32,
    cell_height: u32,
    Ghost(size): Ghost<UVec2>,
) -> (map: CharMap<GlyphRect>)
    requires
        ranges_within(ranges@, chars.len() as nat),
        cell_width * longest(lines_in(chars@, ranges@)) <= size.x,
        cell_height * ranges.len() <= size.y,
    ensures
        map@ == with_rows(lines_in(chars@, ranges@), cell_width as nat, cell_height as nat),
{
    let ghost lines = lines_in(chars@, ranges@);
    let mut map: CharMap<GlyphRect> = CharMap::new();
    let mut row: usize = 0;
    while row < ranges.len()
        invariant
            0 <= row <= ranges.len(),
            lines == lines_in(chars@, ranges@),
            ranges_within(ranges@, chars.len() as nat),
            cell_width * longest(lines) <= size.x,
            cell_height * ranges.len() <= size.y,
            map@ == with_rows(lines.take(row as int), cell_width as nat, cell_height as nat),
        decreases ranges.len() - row,
    {
        let range = ranges[row];
        let ghost line = lines[row as int];
        let ghost above = map@;
        proof {
            lemma_take_step(lines, row as int);
            lemma_longest_bounds(lines, row as int);
            lemma_cell_in_grid(
                cell_height as nat,
                row as nat,
                ranges.len() as nat,
                size.y as nat,
            );
        }
        let min_y: u64 = cell_height as u64 * row as u64;
        let max_y: u64 = cell_height as u64 * (row as u64 + 1);
        let mut column: usize = 0;
        while column < range.1 - range.0
            invariant
                0 <= column <= range.1 - range.0,
                range.0 <= range.1 <= chars.len(),
                line == chars@.subrange(range.0 as int, range.1 as int),
                line.len() <= longest(lines),
                cell_width * longest(lines) <= size.x,
                min_y == cell_height * row,
                max_y == cell_height * (row + 1),
                map@ == with_row(
                    above,
                    line.take(column as int),
                    row as int,
                    cell_width as nat,
                    cell_height as nat,
                ),
            decreases range.1 - range.0 - column,
        {
            let c = chars[range.0 + column];
            proof {
                assert(line.take(column + 1).drop_last() =~= line.take(column as int));
                lemma_cell_in_grid(
                    cell_width as nat,
                    column as nat,
                    longest(lines),
                    size.x as nat,
                );
            }
            let rect = GlyphRect {
                min_x: cell_width as u64 * column as u64,
                min_y,
                max_x: cell_width as u64 * (column as u64 + 1),
                max_y,
            };
            map.insert(c, rect);
            column = column + 1;
        }
        assert(line.take(line.len() as int) =~= line);
        row = row + 1;
    }
    assert(lines.take(lines.len() as int) =~= lines);
    map
}

/// A grid description cut into its lines.
struct Grid {
    /// The characters of the description.
    chars: Vec<char>,
    /// The lines, each as a range of indices into `chars`.
    ranges: Vec<(usize, usize)>,
    /// The length of the longest line.
    columns: usize,
}

/// Cuts a grid description into its lines.
fn read_grid(description: &str) -> (grid: Grid)
    ensures
        ranges_within(grid.ranges@, grid.chars.len() as nat),
        lines_in(grid.chars@, grid.ranges@) == split_lines(trim_newlines(description@)),
        grid.columns == longest(split_lines(trim_newlines(description@))),
{
    let chars = chars_of(description);
    let start: usize = if chars.len() > 0 && chars[0] == '\n' {
        1
    } else {
        0
    };
    let end: usize = if chars.len() > start && chars[chars.len() - 1] == '\n' {
        chars.len() - 1
    } else {
        chars.len()
    };
    let ranges = line_ranges(&chars, start, end);
    let columns = longest_range(&ranges, Ghost(chars@));
    Grid { chars, ranges, columns }
}

/// Resolves a grid description for a texture of the size `size`.
fn grid_into_char_map(description: &str, size: UVec2) -> (out: Result<
    CharMap<GlyphRect>,
    ImageFontLoadError,
>)
    ensures
        match out {
            Ok(map) => grid_char_map(description@, size) == Ok::<
                Map<char, GlyphRect>,
                ImageFontLoadError,
            >(map@),
            Err(error) => grid_char_map(description@, size) == Err::<
                Map<char, GlyphRect>,
                ImageFontLoadError,
            >(error),
        },
{
    let grid = read_grid(description);
    let columns = grid.columns;
    if columns == 0 {
        return Err(ImageFontLoadError::EmptyDescription);
    }
    let ghost lines = lines_in(grid.chars@, grid.ranges@);
    assert(grid.ranges.len() > 0) by {
        if lines.len() == 0 {
            assert(longest(lines) == 0);
        }
    }
    let cell_width: u32 = (size.x as u64 / columns as u64) as u32;
    let cell_height: u32 = (size.y as u64 / grid.ranges.len() as u64) as u32;
    assert(cell_width * columns <= size.x) by (nonlinear_arith)
        requires
            columns > 0,
            cell_width == size.x as int / columns as int,
    ;
    assert(cell_height * grid.ranges.len() <= size.y) by (nonlinear_arith)
        requires
            grid.ranges.len() > 0,
            cell_height == size.y as int / grid.ranges.len() as int,
    ;
    Ok(grid_cells(&grid.chars, &grid.ranges, cell_width, cell_height, Ghost(size)))
}

impl ImageFontLayout {
    /// The numbers of columns and of rows of the grid that this description
    /// lays over a texture, if it is a grid description with a character
    /// in it.
    pub open spec fn spec_grid_size(self) -> Option<(usize, usize)> {
        match self {
            ImageFontLayout::Automatic(description) => {
                let lines = split_lines(trim_newlines(description@));
                if longest(lines) == 0 {
                    None
                } else {
                    Some((longest(lines) as usize, lines.len() as usize))
                }
            },
            _ => None,
        }
    }

    /// The numbers of columns and of rows of the grid that this description
    /// lays over a texture, if it is a grid description with a character
    /// in it. A texture whose width or height is no multiple of these has
    /// pixels that belong to no cell.
    pub fn grid_size(&self) -> (size: Option<(usize, usize)>)
        ensures
            size == self.spec_grid_size(),
    {
        match self {
            ImageFontLayout::Automatic(description) => {
                let grid = read_grid(description.as_str());
                if grid.columns == 0 {
                    None
                } else {
                    assert(lines_in(grid.chars@, grid.ranges@).len() == grid.ranges.len());
                    Some((grid.columns, grid.ranges.len()))
                }
            },
            _ => None,
        }
    }

    /// Given the texture's size, returns the map from each character to
    /// the place of its glyph.
    pub fn into_char_map(self, size: UVec2) -> (out: Result<CharMap<GlyphRect>, ImageFontLoadError>)
        ensures
            match out {
                Ok(map) => self.spec_char_map(size) == Ok::<
                    Map<char, GlyphRect>,
                    ImageFontLoadError,
                >(map@),
                Err(error) => self.spec_char_map(size) == Err::<
                    Map<char, GlyphRect>,
                    ImageFontLoadError,
                >(error),
            },
    {
        match self {
            ImageFontLayout::Automatic(description) => grid_into_char_map(
                description.as_str(),
                size,
            ),
            ImageFontLayout::ManualMonospace { size: glyph_size, coords } => {
                let keys = coords.keys();
                let mut map: CharMap<GlyphRect> = CharMap::new();
                let mut i: usize = 0;
                while i < keys.len()
                    invariant
                        0 <= i <= keys.len(),
                        forall|c: char| keys@.contains(c) <==> coords@.contains_key(c),
                        forall|c: char|
                            map@.contains_key(c) <==> keys@.take(i as int).contains(c),
                        forall|c: char|
                            map@.contains_key(c) ==> map@[c] == GlyphRect::spec_from_size(
                                coords@[c],
                                glyph_size,
                            ),
                    decreases keys.len() - i,
                {
                    let c = keys[i];
                    let ghost before = map@;
                    proof {
                        assert(keys@[i as int] == c);
                        assert(keys@.contains(c));
                        lemma_take_contains(keys@, i as int);
                    }
                    match coords.get(c) {
                        Some(top_left) => {
                            map.insert(c, GlyphRect::from_size(*top_left, glyph_size));
                        },
                        None => {
                            assert(false);
                        },
                    }
                    assert forall|d: char| map@.contains_key(d) <==> keys@.take(
                        i + 1,
                    ).contains(d) by {
                        assert(map@.contains_key(d) <==> before.contains_key(d) || d == c);
                        assert(before.contains_key(d) <==> keys@.take(i as int).contains(d));
                        assert(keys@.take(i + 1).contains(d) <==> keys@.take(i as int).contains(d)
                            || d == keys@[i as int]);
                    }
                    i = i + 1;
                }
                assert(keys@.take(keys.len() as int) =~= keys@);
                assert(map@ =~= monospace_char_map(glyph_size, coords@));
                Ok(map)
            },
            ImageFontLayout::Manual(rects) => {
                let keys = rects.keys();
                let mut map: CharMap<GlyphRect> = CharMap::new();
                let mut i: usize = 0;
                while i < keys.len()
                    invariant
                        0 <= i <= keys.len(),
                        forall|c: char| keys@.contains(c) <==> rects@.contains_key(c),
                        forall|c: char|
                            map@.contains_key(c) <==> keys@.take(i as int).contains(c),
                        forall|c: char|
                            map@.contains_key(c) ==> map@[c] == GlyphRect::spec_from_urect(
                                rects@[c],
                            ),
                    decreases keys.len() - i,
                {
                    let c = keys[i];
                    let ghost before = map@;
                    proof {
                        assert(keys@[i as int] == c);
                        assert(keys@.contains(c));
                        lemma_take_contains(keys@, i as int);
                    }
                    match rects.get(c) {
                        Some(rect) => {
                            map.insert(c, GlyphRect::from_urect(*rect));
                        },
                        None => {
                            assert(false);
                        },
                    }
                    assert forall|d: char| map@.contains_key(d) <==> keys@.take(
                        i + 1,
                    ).contains(d) by {
                        assert(map@.contains_key(d) <==> before.contains_key(d) || d == c);
                        assert(before.contains_key(d) <==> keys@.take(i as int).contains(d));
                        assert(keys@.take(i + 1).contains(d) <==> keys@.take(i as int).contains(d)
                            || d == keys@[i as int]);
                    }
                    i = i + 1;
                }
                assert(keys@.take(keys.len() as int) =~= keys@);
                assert(map@ =~= manual_char_map(rects@));
                Ok(map)
            },
        }
    }
}

/// The character `c` stands somewhere in `lines`.
pub open spec fn occurs(lines: Seq<Seq<char>>, c: char) -> bool {
    exists|row: int, column: int|
        0 <= row < lines.len() && 0 <= column < lines[row].len() && #[trigger] lines[row][column]
            == c
}

/// The character `c` stands in `lines` somewhere after the place
/// `(row, column)`, reading row by row from the top and each row from the
/// left.
pub open spec fn occurs_after(lines: Seq<Seq<char>>, row: int, column: int, c: char) -> bool {
    exists|r: int, k: int|
        0 <= r < lines.len() && 0 <= k < lines[r].len() && (r > row || (r == row && k > column))
            && #[trigger] lines[r][k] == c
}

/// Nothing that stands after place `k` of `line` is the character at `k`.
spec fn last_in_line(line: Seq<char>, k: int) -> bool {
    forall|l: int| k < l < line.len() ==> #[trigger] line[l] != line[k]
}

proof fn lemma_with_row_keys(
    map: Map<char, GlyphRect>,
    line: Seq<char>,
    row: int,
    cell_width: nat,
    cell_height: nat,
    c: char,
)
    ensures
        with_row(map, line, row, cell_width, cell_height).contains_key(c) <==> map.contains_key(c)
            || line.contains(c),
        !line.contains(c) && map.contains_key(c) ==> with_row(
            map,
            line,
            row,
            cell_width,
            cell_height,
        )[c] == map[c],
    decreases line.len(),
{
    if line.len() > 0 {
        let shorter = line.drop_last();
        lemma_with_row_keys(map, shorter, row, cell_width, cell_height, c);
        if line.contains(c) {
            let k = choose|k: int| 0 <= k < line.len() && line[k] == c;
            if k < shorter.len() {
                assert(shorter[k] == c);
            }
        }
        if shorter.contains(c) {
            let k = choose|k: int| 0 <= k < shorter.len() && shorter[k] == c;
            assert(line[k] == c);
        }
        if c == line.last() {
            assert(line[line.len() - 1] == c);
        }
    }
}

proof fn lemma_with_row_last(
    map: Map<char, GlyphRect>,
    line: Seq<char>,
    row: int,
    cell_width: nat,
    cell_height: nat,
    k: int,
)
    requires
        0 <= k < line.len(),
        last_in_line(line, k),
    ensures
        with_row(map, line, row, cell_width, cell_height).contains_key(line[k]),
        with_row(map, line, row, cell_width, cell_height)[line[k]] == cell_rect(
            cell_width,
            cell_height,
            row,
            k,
        ),
    decreases line.len(),
{
    if k < line.len() - 1 {
        let shorter = line.drop_last();
        assert(line[line.len() - 1] != line[k]);
        assert(shorter[k] == line[k]);
        assert(last_in_line(shorter, k)) by {
            assert forall|l: int| k < l < shorter.len() implies #[trigger] shorter[l]
                != shorter[k] by {
                assert(line[l] != line[k]);
            }
        }
        lemma_with_row_last(map, shorter, row, cell_width, cell_height, k);
    }
}

proof fn lemma_with_rows_keys(
    lines: Seq<Seq<char>>,
    cell_width: nat,
    cell_height: nat,
    c: char,
)
    ensures
        with_rows(lines, cell_width, cell_height).contains_key(c) <==> occurs(lines, c),
    decreases lines.len(),
{
    if lines.len() > 0 {
        let above = lines.drop_last();
        let line = lines.last();
        let last = lines.len() - 1;
        let before = with_rows(above, cell_width, cell_height);
        lemma_with_rows_keys(above, cell_width, cell_height, c);
        lemma_with_row_keys(before, line, last, cell_width, cell_height, c);
        if occurs(lines, c) {
            let (r, k) = choose|r: int, k: int|
                0 <= r < lines.len() && 0 <= k < lines[r].len() && #[trigger] lines[r][k] == c;
            if r < last {
                assert(above[r][k] == c);
                assert(occurs(above, c));
            } else {
                assert(line[k] == c);
                assert(line.contains(c));
            }
        }
        if occurs(above, c) {
            let (r, k) = choose|r: int, k: int|
                0 <= r < above.len() && 0 <= k < above[r].len() && #[trigger] above[r][k] == c;
            assert(lines[r][k] == c);
        }
        if line.contains(c) {
            let k = choose|k: int| 0 <= k < line.len() && line[k] == c;
            assert(lines[last][k] == c);
        }
    }
}

proof fn lemma_with_rows_last(
    lines: Seq<Seq<char>>,
    cell_width: nat,
    cell_height: nat,
    row: int,
    column: int,
)
    requires
        0 <= row < lines.len(),
        0 <= column < lines[row].len(),
        !occurs_after(lines, row, column, lines[row][column]),
    ensures
        with_rows(lines, cell_width, cell_height).contains_key(lines[row][column]),
        with_rows(lines, cell_width, cell_height)[lines[row][column]] == cell_rect(
            cell_width,
            cell_height,
            row,
            column,
        ),
    decreases lines.len(),
{
    let above = lines.drop_last();
    let line = lines.last();
    let last = lines.len() - 1;
    let before = with_rows(above, cell_width, cell_height);
    let c = lines[row][column];
    if row == last {
        assert(last_in_line(line, column)) by {
            assert forall|l: int| column < l < line.len() implies #[trigger] line[l]
                != line[column] by {
                if line[l] == line[column] {
                    assert(lines[last][l] == c);
                }
            }
        }
        lemma_with_row_last(before, line, last, cell_width, cell_height, column);
    } else {
        assert(!line.contains(c)) by {
            if line.contains(c) {
                let k = choose|k: int| 0 <= k < line.len() && line[k] == c;
                assert(lines[last][k] == c);
            }
        }
        assert(above[row][column] == c);
        assert(!occurs_after(above, row, column, c)) by {
            if occurs_after(above, row, column, c) {
                let (r, k) = choose|r: int, k: int|
                    0 <= r < above.len() && 0 <= k < above[r].len() && (r > row || (r == row && k
                        > column)) && #[trigger] above[r][k] == c;
                assert(lines[r][k] == c);
            }
        }
        lemma_with_rows_last(above, cell_width, cell_height, row, column);
        lemma_with_row_keys(before, line, last, cell_width, cell_height, c);
    }
}

proof fn lemma_with_row_value(
    map: Map<char, GlyphRect>,
    line: Seq<char>,
    row: int,
    cell_width: nat,
    cell_height: nat,
    c: char,
)
    requires
        line.contains(c),
    ensures
        exists|k: int|
            0 <= k < line.len() && #[trigger] line[k] == c && with_row(
                map,
                line,
                row,
                cell_width,
                cell_height,
            )[c] == cell_rect(cell_width, cell_height, row, k),
    decreases line.len(),
{
    let out = with_row(map, line, row, cell_width, cell_height);
    if line.last() == c {
        let k = line.len() - 1;
        assert(line[k] == c && out[c] == cell_rect(cell_width, cell_height, row, k));
    } else {
        let shorter = line.drop_last();
        let at = choose|k: int| 0 <= k < line.len() && line[k] == c;
        assert(shorter[at] == c);
        lemma_with_row_value(map, shorter, row, cell_width, cell_height, c);
        let k = choose|k: int|
            0 <= k < shorter.len() && #[trigger] shorter[k] == c && with_row(
                map,
                shorter,
                row,
                cell_width,
                cell_height,
            )[c] == cell_rect(cell_width, cell_height, row, k);
        assert(line[k] == c && out[c] == cell_rect(cell_width, cell_height, row, k));
    }
}

proof fn lemma_with_rows_value(lines: Seq<Seq<char>>, cell_width: nat, cell_height: nat, c: char)
    requires
        with_rows(lines, cell_width, cell_height).contains_key(c),
    ensures
        exists|row: int, column: int|
            0 <= row < lines.len() && 0 <= column < lines[row].len() && #[trigger] lines[row][column]
                == c && with_rows(lines, cell_width, cell_height)[c] == cell_rect(
                cell_width,
                cell_height,
                row,
                column,
            ),
    decreases lines.len(),
{
    let out = with_rows(lines, cell_width, cell_height);
    if lines.len() > 0 {
        let above = lines.drop_last();
        let line = lines.last();
        let last = lines.len() - 1;
        let before = with_rows(above, cell_width, cell_height);
        lemma_with_row_keys(before, line, last, cell_width, cell_height, c);
        if line.contains(c) {
            lemma_with_row_value(before, line, last, cell_width, cell_height, c);
            let k = choose|k: int|
                0 <= k < line.len() && #[trigger] line[k] == c && with_row(
                    before,
                    line,
                    last,
                    cell_width,
                    cell_height,
                )[c] == cell_rect(cell_width, cell_height, last, k);
            assert(lines[last][k] == c && out[c] == cell_rect(cell_width, cell_height, last, k));
        } else {
            lemma_with_rows_value(above, cell_width, cell_height, c);
            let (row, column) = choose|row: int, column: int|
                0 <= row < above.len() && 0 <= column < above[row].len()
                    && #[trigger] above[row][column] == c && before[c] == cell_rect(
                    cell_width,
                    cell_height,
                    row,
                    column,
                );
            assert(lines[row][column] == c && out[c] == cell_rect(
                cell_width,
                cell_height,
                row,
                column,
            ));
        }
    }
}

/// A grid description resolves to a glyph for exactly the characters that
/// stand in its lines.
pub proof fn lemma_grid_characters(description: Seq<char>, size: UVec2, c: char)
    ensures
        grid_char_map(description, size) matches Ok(map) ==> (map.contains_key(c) <==> occurs(
            split_lines(trim_newlines(description)),
            c,
        )),
{
    let lines = split_lines(trim_newlines(description));
    let columns = longest(lines);
    if columns > 0 {
        lemma_with_rows_keys(lines, (size.x as nat) / columns, (size.y as nat) / lines.len(), c);
    }
}

/// Where a character stands more than once in a grid description, its glyph
/// is the cell of the last place, reading row by row from the top and each
/// row from the left.
pub proof fn lemma_grid_last_occurrence_wins(
    description: Seq<char>,
    size: UVec2,
    row: int,
    column: int,
)
    requires
        0 <= row < split_lines(trim_newlines(description)).len(),
        0 <= column < split_lines(trim_newlines(description))[row].len(),
        !occurs_after(
            split_lines(trim_newlines(description)),
            row,
            column,
            split_lines(trim_newlines(description))[row][column],
        ),
    ensures
        ({
            let lines = split_lines(trim_newlines(description));
            &&& grid_char_map(description, size) matches Ok(map)
            &&& map.contains_key(lines[row][column])
            &&& map[lines[row][column]] == cell_rect(
                (size.x as nat) / longest(lines),
                (size.y as nat) / lines.len(),
                row,
                column,
            )
        }),
{
    let lines = split_lines(trim_newlines(description));
    let columns = longest(lines);
    lemma_longest_bounds(lines, row);
    lemma_with_rows_last(
        lines,
        (size.x as nat) / columns,
        (size.y as nat) / lines.len(),
        row,
        column,
    );
}

/// Every cell of a grid lies inside the texture that the grid was laid
/// over.
pub proof fn lemma_grid_cells_lie_inside(description: Seq<char>, size: UVec2, row: int, column: int)
    requires
        0 <= row < split_lines(trim_newlines(description)).len(),
        0 <= column < split_lines(trim_newlines(description))[row].len(),
    ensures
        ({
            let lines = split_lines(trim_newlines(description));
            let cell = cell_rect(
                (size.x as nat) / longest(lines),
                (size.y as nat) / lines.len(),
                row,
                column,
            );
            &&& cell.min_x <= cell.max_x <= size.x
            &&& cell.min_y <= cell.max_y <= size.y
            &&& cell.spec_width() == (size.x as nat) / longest(lines)
            &&& cell.spec_height() == (size.y as nat) / lines.len()
        }),
{
    let lines = split_lines(trim_newlines(description));
    let columns = longest(lines);
    let cell_width = (size.x as nat) / columns;
    let cell_height = (size.y as nat) / lines.len();
    lemma_longest_bounds(lines, row);
    assert(cell_width * columns <= size.x) by (nonlinear_arith)
        requires
            columns > 0,
            cell_width == (size.x as nat) / columns,
    ;
    assert(cell_height * lines.len() <= size.y) by (nonlinear_arith)
        requires
            lines.len() > 0,
            cell_height == (size.y as nat) / lines.len(),
    ;
    lemma_cell_in_grid(cell_width, column as nat, columns, size.x as nat);
    lemma_cell_in_grid(cell_height, row as nat, lines.len(), size.y as nat);
    assert(cell_width * (column + 1) - cell_width * column == cell_width) by (nonlinear_arith);
    assert(cell_height * (row + 1) - cell_height * row == cell_height) by (nonlinear_arith);
}

/// Every glyph that a grid description resolves to is one of the grid's
/// cells, and so lies inside the texture that the grid was laid over.
pub proof fn lemma_grid_glyphs_lie_inside(description: Seq<char>, size: UVec2, c: char)
    ensures
        grid_char_map(description, size) matches Ok(glyphs) ==> (glyphs.contains_key(c) ==> {
            &&& glyphs[c].min_x <= glyphs[c].max_x <= size.x
            &&& glyphs[c].min_y <= glyphs[c].max_y <= size.y
        }),
{
    let lines = split_lines(trim_newlines(description));
    let columns = longest(lines);
    if columns > 0 {
        let cell_width = (size.x as nat) / columns;
        let cell_height = (size.y as nat) / lines.len();
        let map = with_rows(lines, cell_width, cell_height);
        if map.contains_key(c) {
            lemma_with_rows_value(lines, cell_width, cell_height, c);
            let (row, column) = choose|row: int, column: int|
                0 <= row < lines.len() && 0 <= column < lines[row].len()
                    && #[trigger] lines[row][column] == c && map[c] == cell_rect(
                    cell_width,
                    cell_height,
                    row,
                    column,
                );
            lemma_grid_cells_lie_inside(description, size, row, column);
        }
    }
}

} // verus!
