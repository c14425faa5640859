//! Builds the glyph cache: every character a font covers, rasterized once.

use crate::name_table::{has_decodable_names, names_are_decodable};
use std::collections::HashMap;
use vstd::prelude::*;
use vstd::std_specs::iter::IteratorSpec;

verus! {

/// One rasterized character at a fixed point size: a row-major grid of
/// coverage values, `width` columns by `height` rows.
#[derive(Clone, Debug, PartialEq, Eq)]
pub struct Glyph {
    pub width: usize,
    pub height: usize,
    pub bitmap: Vec<u8>,
}

/// Why a font resource could not be made into a glyph cache.
#[derive(Clone, Debug, PartialEq, Eq)]
pub enum FontError {
    /// The resource holds a full name that is not well-formed UTF-16.
    UndecodableName,
    /// The parser rejected the resource, for the reason it gives.
    Rejected { reason: String },
    /// A glyph of the font would need more raster cells at the point size
    /// than `MAX_RASTER_CELLS`.
    GlyphTooLarge,
}

/// The largest number of cells a glyph's raster may have. Up to here every
/// cell index is a whole number that single-precision arithmetic holds
/// exactly.
pub const MAX_RASTER_CELLS: usize = 0x0100_0000;

#[verifier::external_type_specification]
#[verifier::external_body]
pub struct ExFont(fontdue::Font);

/// What `fontdue::Font::from_bytes` makes of a font resource under the
/// default settings: the parsed font, or the reason the resource was
/// rejected.
pub uninterp spec fn font_parse(data: Seq<u8>) -> Result<fontdue::Font, Seq<char>>;

/// The characters a parsed font maps to glyphs: the keys of
/// `fontdue::Font::chars`.
pub uninterp spec fn font_chars(font: fontdue::Font) -> Set<char>;

/// The width and height that `fontdue::Font::metrics` gives the bitmap of a
/// character at a point size.
pub uninterp spec fn raster_size(font: fontdue::Font, character: char, point_size: u16) -> (
    nat,
    nat,
);

/// `fontdue::Font::from_bytes` with `FontSettings::default()`. The font
/// that comes out, or the reason given for a rejection, follows from the
/// bytes alone. The call decodes the font's full name as UTF-16 without a
/// check of its own, so only resources whose names can be decoded are
/// admitted.
#[verifier::external_body]
fn parse_font(data: &[u8]) -> (parsed: Result<fontdue::Font, String>)
    requires
        names_are_decodable(data@),
    ensures
        match parsed {
            Ok(font) => font_parse(data@) == Ok::<fontdue::Font, Seq<char>>(font),
            Err(reason) => font_parse(data@) == Err::<fontdue::Font, Seq<char>>(reason@),
        },
{
    match fontdue::Font::from_bytes(data, fontdue::FontSettings::default()) {
        Ok(font) => Ok(font),
        Err(reason) => Err(String::from(reason)),
    }
}

/// The keys of `fontdue::Font::chars`: every character the font maps, each
/// once, in whatever order the map hands them out.
#[verifier::external_body]
fn covered_chars(font: &fontdue::Font) -> (chars: Vec<char>)
    ensures
        chars@.to_set() == font_chars(*font),
        chars@.no_duplicates(),
{
    font.chars().keys().copied().collect()
}

/// `fontdue::Font::metrics`: the width and height of the bitmap that the
/// character gets at the point size.
#[verifier::external_body]
fn measure(font: &fontdue::Font, character: char, point_size: u16) -> (size: (usize, usize))
    ensures
        size.0 == raster_size(*font, character, point_size).0,
        size.1 == raster_size(*font, character, point_size).1,
{
    let metrics = font.metrics(character, point_size.into());
    (metrics.width, metrics.height)
}

/// `fontdue::Font::rasterize`: the coverage values of the character's
/// bitmap, one byte for each pixel of the measured width and height, row by
/// row. The values come out of floating-point arithmetic that differs from
/// target to target, so nothing more is said of them. Only rasters of up to
/// `MAX_RASTER_CELLS` cells are admitted: the rasterizer writes its cells
/// without a bounds check of its own.
#[verifier::external_body]
fn rasterize(font: &fontdue::Font, character: char, point_size: u16) -> (bitmap: Vec<u8>)
    requires
        raster_fits(*font, character, point_size),
    ensures
        bitmap@.len() == raster_size(*font, character, point_size).0 * raster_size(
            *font,
            character,
            point_size,
        ).1,
{
    font.rasterize(character, point_size.into()).1
}

/// Whether the raster of the character at the point size is small enough
/// to be made.
pub open spec fn raster_fits(font: fontdue::Font, character: char, point_size: u16) -> bool {
    raster_size(font, character, point_size).0 * raster_size(font, character, point_size).1
        <= MAX_RASTER_CELLS
}

/// Whether the raster of every character of the font is small enough.
pub open spec fn all_rasters_fit(font: fontdue::Font, point_size: u16) -> bool {
    forall|character: char| #[trigger]
        font_chars(font).contains(character) ==> raster_fits(font, character, point_size)
}

/// The width a character's glyph gets in the cache. A rasterizer may report
/// no width at all for the space, which would collapse all spacing, so the
/// space is half the point size wide whatever was reported.
pub open spec fn cached_width(character: char, point_size: u16, reported: usize) -> usize {
    if character == ' ' {
        (point_size / 2) as usize
    } else {
        reported
    }
}

/// Whether `glyph` is what the cache keeps of the character: the height is
/// the raster's, the width is the raster's or, for the space, half the
/// point size, and the bitmap has a byte for each pixel of the raster.
pub open spec fn is_glyph_of(glyph: Glyph, font: fontdue::Font, character: char, point_size: u16) -> bool {
    let size = raster_size(font, character, point_size);
    &&& size.0 <= usize::MAX
    &&& glyph.width == cached_width(character, point_size, size.0 as usize)
    &&& glyph.height == size.1
    &&& glyph.bitmap@.len() == size.0 * size.1
}

/// The code points of a set of characters: the keys under which the cache
/// holds their glyphs.
pub open spec fn code_points(chars: Set<char>) -> Set<u32> {
    Set::new(|key: u32| exists|character: char| chars.contains(character) && character as u32 == key)
}

/// Two characters never share a code point.
pub proof fn lemma_code_point_identifies(first: char, second: char)
    ensures
        first as u32 == second as u32 <==> first == second,
{
}

/// Whether `table` holds one entry for each of `chars` and no other, each
/// the glyph of its character.
pub open spec fn caches(
    table: Map<u32, Glyph>,
    font: fontdue::Font,
    chars: Set<char>,
    point_size: u16,
) -> bool {
    &&& table.dom() == code_points(chars)
    &&& forall|character: char| #[trigger]
        chars.contains(character) ==> is_glyph_of(
            table[character as u32],
            font,
            character,
            point_size,
        )
}

/// Whether `table` is the cache of the font at `point_size`: one entry for
/// each character the font covers and no other.
pub open spec fn is_glyph_table(table: Map<u32, Glyph>, font: fontdue::Font, point_size: u16) -> bool {
    caches(table, font, font_chars(font), point_size)
}

/// Wraps what the rasterizer reported of `character` into a glyph.
pub fn create_new_glyph(character: char, point_size: u16, raster: (usize, usize, Vec<u8>)) -> (glyph:
    Glyph)
    ensures
        glyph.width == cached_width(character, point_size, raster.0),
        glyph.height == raster.1,
        glyph.bitmap@ == raster.2@,
{
    let (reported, height, bitmap) = raster;
    let width = if character == ' ' {
        (point_size / 2) as usize
    } else {
        reported
    };
    Glyph { width, height, bitmap }
}

/// Rasterizes every character the font maps, once, at `point_size`. There
/// is no cache where one of the rasters would be too large.
pub fn build_glyph_table(font: &fontdue::Font, point_size: u16) -> (built: Result<
    HashMap<u32, Glyph>,
    FontError,
>)
    ensures
        match built {
            Ok(table) => all_rasters_fit(*font, point_size) && is_glyph_table(
                table@,
                *font,
                point_size,
            ),
            Err(error) => !all_rasters_fit(*font, point_size) && error == FontError::GlyphTooLarge,
        },
{
    let chars = covered_chars(font);
    let mut table: HashMap<u32, Glyph> = HashMap::new();
    let mut done: usize = 0;
    assert(table@.dom() =~= code_points(chars@.take(0).to_set()));
    while done < chars.len()
        invariant
            done <= chars.len(),
            chars@.no_duplicates(),
            chars@.to_set() == font_chars(*font),
            caches(table@, *font, chars@.take(done as int).to_set(), point_size),
            forall|character: char| #[trigger]
                chars@.take(done as int).to_set().contains(character) ==> raster_fits(
                    *font,
                    character,
                    point_size,
                ),
        decreases chars.len() - done,
    {
        let character = chars[done];
        let (width, height) = measure(font, character, point_size);
        let fits = match width.checked_mul(height) {
            Some(cells) => cells <= MAX_RASTER_CELLS,
            None => false,
        };
        if !fits {
            assert(chars@.to_set().contains(character));
            return Err(FontError::GlyphTooLarge);
        }
        let bitmap = rasterize(font, character, point_size);
        let ghost before = table@;
        let glyph = create_new_glyph(character, point_size, (width, height, bitmap));
        table.insert(character as u32, glyph);
        proof {
            let head = chars@.take(done as int);
            let seen = head.to_set();
            let now = chars@.take(done + 1).to_set();
            assert(chars@.take(done + 1) =~= head.push(character));
            head.lemma_push_to_set_commute(character);
            assert(now == seen.insert(character));
            assert(table@.dom() =~= code_points(now)) by {
                assert forall|key: u32| table@.dom().contains(key) <==> code_points(now).contains(
                    key,
                ) by {
                    if table@.dom().contains(key) {
                        if key == character as u32 {
                            assert(now.contains(character));
                        } else {
                            assert(code_points(seen).contains(key));
                            let other = choose|other: char|
                                seen.contains(other) && other as u32 == key;
                            assert(now.contains(other));
                        }
                    }
                    if code_points(now).contains(key) {
                        let other = choose|other: char| now.contains(other) && other as u32 == key;
                        if other != character {
                            assert(seen.contains(other));
                            assert(code_points(seen).contains(key));
                        }
                    }
                }
            }
            assert forall|other: char| #[trigger] now.contains(other) implies is_glyph_of(
                table@[other as u32],
                *font,
                other,
                point_size,
            ) by {
                if other != character {
                    assert(seen.contains(other));
                    lemma_code_point_identifies(other, character);
                    assert(table@[other as u32] == before[other as u32]);
                }
            }
        }
        done += 1;
    }
    assert(chars@.take(chars@.len() as int) =~= chars@);
    Ok(table)
}

/// Parses a font resource and rasterizes every character it covers, once,
/// at `point_size`. There is no cache where the resource holds a full name
/// that cannot be decoded, where the parser rejects the resource, or where
/// a raster would be too large.
pub fn get_glyph_table(font_data: &[u8], point_size: u16) -> (loaded: Result<
    HashMap<u32, Glyph>,
    FontError,
>)
    ensures
        !names_are_decodable(font_data@) ==> loaded == Err::<HashMap<u32, Glyph>, FontError>(
            FontError::UndecodableName,
        ),
        names_are_decodable(font_data@) ==> match font_parse(font_data@) {
            Err(reason) => (loaded matches Err(FontError::Rejected { reason: given }) && given@
                == reason),
            Ok(font) => if all_rasters_fit(font, point_size) {
                (loaded matches Ok(table) && is_glyph_table(table@, font, point_size))
            } else {
                loaded == Err::<HashMap<u32, Glyph>, FontError>(FontError::GlyphTooLarge)
            },
        },
{
    if !has_decodable_names(font_data) {
        return Err(FontError::UndecodableName);
    }
    match parse_font(font_data) {
        Ok(font) => build_glyph_table(&font, point_size),
        Err(reason) => Err(FontError::Rejected { reason }),
    }
}

/// Whether `height` is the height of the tallest glyph in the cache: no
/// glyph is taller, and one is exactly that tall.
pub open spec fn is_max_glyph_height(glyphs: Map<u32, Glyph>, height: usize) -> bool {
    &&& forall|key: u32| #[trigger] glyphs.contains_key(key) ==> glyphs[key].height <= height
    &&& exists|key: u32| #[trigger] glyphs.contains_key(key) && glyphs[key].height == height
}

/// The height of the tallest glyph in the cache, the line that all text is
/// aligned to. An empty cache has no tallest glyph.
pub fn get_max_glyph_height(glyph_map: &HashMap<u32, Glyph>) -> (height: usize)
    requires
        glyph_map@.len() > 0,
    ensures
        is_max_glyph_height(glyph_map@, height),
{
    let mut tallest: usize = 0;
    let mut seen: bool = false;
    let values = glyph_map.values();
    let ghost all = values.remaining();
    for glyph in iter: values
        invariant
            iter.seq() == all,
            seen == (iter.index() > 0),
            forall|at: int| 0 <= at < iter.index() ==> (#[trigger] iter.seq()[at]).height <= tallest,
            seen ==> exists|at: int| 0 <= at < iter.index() && (#[trigger] iter.seq()[at]).height == tallest,
    {
        if !seen || glyph.height > tallest {
            tallest = glyph.height;
        }
        seen = true;
    }
    proof {
        assert forall|key: u32| #[trigger] glyph_map@.contains_key(key) implies glyph_map@[key].height
            <= tallest by {
            assert(glyph_map@.values().contains(glyph_map@[key]));
            assert(all.unref().to_set().contains(glyph_map@[key]));
            let at = choose|at: int| 0 <= at < all.unref().len() && all.unref()[at] == glyph_map@[key];
            assert(all[at].height <= tallest);
        }
        let at = choose|at: int| 0 <= at < all.len() && (#[trigger] all[at]).height == tallest;
        assert(all.unref()[at] == *all[at]);
        assert(all.unref().to_set().contains(*all[at]));
        assert(glyph_map@.values().contains(*all[at]));
        let key = choose|key: u32| #[trigger] glyph_map@.contains_key(key) && glyph_map@[key] == *all[at];
        assert(glyph_map@.contains_key(key) && glyph_map@[key].height == tallest);
    }
    tallest
}

/// The height of the tallest glyph in the cache. It says nothing of an
/// empty cache.
pub open spec fn tallest(glyphs: Map<u32, Glyph>) -> usize {
    choose|height: usize| is_max_glyph_height(glyphs, height)
}

/// A cache has one tallest height and no other.
pub proof fn lemma_max_glyph_height_is_unique(glyphs: Map<u32, Glyph>, height: usize)
    requires
        is_max_glyph_height(glyphs, height),
    ensures
        tallest(glyphs) == height,
{
    let chosen = tallest(glyphs);
    assert(is_max_glyph_height(glyphs, chosen));
    let here = choose|key: u32| #[trigger] glyphs.contains_key(key) && glyphs[key].height == height;
    let there = choose|key: u32| #[trigger] glyphs.contains_key(key) && glyphs[key].height == chosen;
    assert(glyphs[here].height <= chosen);
    assert(glyphs[there].height <= height);
}

/// A cache holds exactly one entry for each character of its font: a
/// character has an entry if and only if the font covers it, and two
/// characters never share an entry.
pub proof fn lemma_one_entry_per_character(
    table: Map<u32, Glyph>,
    font: fontdue::Font,
    point_size: u16,
    first: char,
    second: char,
)
    requires
        is_glyph_table(table, font, point_size),
    ensures
        table.contains_key(first as u32) <==> font_chars(font).contains(first),
        first != second ==> first as u32 != second as u32,
{
    let chars = font_chars(font);
    lemma_code_point_identifies(first, second);
    if table.contains_key(first as u32) {
        assert(code_points(chars).contains(first as u32));
        let other = choose|other: char| chars.contains(other) && other as u32 == first as u32;
        lemma_code_point_identifies(first, other);
    }
    if chars.contains(first) {
        assert(code_points(chars).contains(first as u32));
    }
}

/// Two caches of the same font at the same point size have the same
/// entries, and their glyphs agree in width, height and number of bytes.
pub proof fn lemma_rebuilt_tables_agree(
    first: Map<u32, Glyph>,
    second: Map<u32, Glyph>,
    font: fontdue::Font,
    point_size: u16,
    key: u32,
)
    requires
        is_glyph_table(first, font, point_size),
        is_glyph_table(second, font, point_size),
    ensures
        first.dom() == second.dom(),
        first.contains_key(key) ==> {
            &&& first[key].width == second[key].width
            &&& first[key].height == second[key].height
            &&& first[key].bitmap@.len() == second[key].bitmap@.len()
        },
{
    let chars = font_chars(font);
    if first.contains_key(key) {
        assert(code_points(chars).contains(key));
        let character = choose|character: char| chars.contains(character) && character as u32 == key;
        assert(is_glyph_of(first[character as u32], font, character, point_size));
        assert(is_glyph_of(second[character as u32], font, character, point_size));
    }
}

/// In a cache of a font that covers the space, the space is half the point
/// size wide, rounded down, whatever the rasterizer reported; its height
/// and the size of its bitmap are the reported ones.
pub proof fn lemma_space_is_half_the_point_size(
    table: Map<u32, Glyph>,
    font: fontdue::Font,
    point_size: u16,
)
    requires
        is_glyph_table(table, font, point_size),
        font_chars(font).contains(' '),
    ensures
        table.contains_key(' ' as u32),
        table[' ' as u32].width == point_size / 2,
        table[' ' as u32].height == raster_size(font, ' ', point_size).1,
        table[' ' as u32].bitmap@.len() == raster_size(font, ' ', point_size).0 * raster_size(
            font,
            ' ',
            point_size,
        ).1,
{
    lemma_one_entry_per_character(table, font, point_size, ' ', ' ');
    assert(is_glyph_of(table[' ' as u32], font, ' ', point_size));
}

/// In a cache, every glyph but the space has one byte of coverage for each
/// pixel of its `width` by `height` grid.
pub proof fn lemma_cached_glyphs_are_rectangular(
    table: Map<u32, Glyph>,
    font: fontdue::Font,
    point_size: u16,
    character: char,
)
    requires
        is_glyph_table(table, font, point_size),
        font_chars(font).contains(character),
        character != ' ',
    ensures
        table[character as u32].bitmap@.len() == table[character as u32].width * table[character as u32].height,
{
    assert(is_glyph_of(table[character as u32], font, character, point_size));
}

} // verus!
