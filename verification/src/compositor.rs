//! Compositing text: cached glyph bitmaps are copied into a frame buffer,
//! left to right, all aligned to the height of the tallest cached glyph.

use crate::font_loader::{
    get_max_glyph_height, lemma_max_glyph_height_is_unique, tallest, Glyph,
};
use crate::framebuffer::{cleared, gray, gray_pixel, FrameBuffer};
use std::collections::HashMap;
use vstd::prelude::*;

verus! {

/// The frame buffer position of bitmap byte `index` of `glyph`, for a buffer
/// whose rows are `stride` pixels apart. The byte belongs to row
/// `index / width` and column `index % width` of the glyph; the glyph's top
/// row sits `max_height - glyph.height` buffer rows down, and each glyph row
/// starts at the cursor.
pub open spec fn destination(
    stride: int,
    glyph: Glyph,
    cursor: int,
    max_height: int,
    index: int,
) -> int
    recommends
        glyph.width > 0,
{
    stride * (max_height - glyph.height + index / (glyph.width as int)) + cursor + index % (
    glyph.width as int)
}

/// Whether the place of bitmap byte `index` is inside a buffer of `len`
/// pixels: its column lies left of the buffer's right edge, and its
/// destination is inside the buffer. A glyph without width has no columns,
/// so none of its bytes has a place.
pub open spec fn lands(
    len: int,
    stride: int,
    glyph: Glyph,
    cursor: int,
    max_height: int,
    index: int,
) -> bool {
    &&& glyph.width > 0
    &&& cursor + index % (glyph.width as int) < stride
    &&& 0 <= destination(stride, glyph, cursor, max_height, index) < len
}

/// Whether bitmap byte `index` is written into a buffer of `len` pixels: it
/// has coverage and its place is inside the buffer.
pub open spec fn is_drawn(
    len: int,
    stride: int,
    glyph: Glyph,
    cursor: int,
    max_height: int,
    index: int,
) -> bool {
    glyph.bitmap@[index] > 0 && lands(len, stride, glyph, cursor, max_height, index)
}

/// The pixels once the first `count` bytes of the glyph's bitmap have been
/// handled in order: every byte that is drawn leaves its gray at its
/// destination, every other byte is dropped.
pub open spec fn blit(
    pixels: Seq<u32>,
    stride: int,
    glyph: Glyph,
    cursor: int,
    max_height: int,
    count: int,
) -> Seq<u32>
    decreases count,
{
    if count <= 0 {
        pixels
    } else {
        let drawn = blit(pixels, stride, glyph, cursor, max_height, count - 1);
        if is_drawn(pixels.len() as int, stride, glyph, cursor, max_height, count - 1) {
            drawn.update(
                destination(stride, glyph, cursor, max_height, count - 1),
                gray(glyph.bitmap@[count - 1]),
            )
        } else {
            drawn
        }
    }
}

/// The pixels once the whole glyph has been blitted at the cursor.
pub open spec fn draw_glyph_on(
    pixels: Seq<u32>,
    stride: int,
    glyph: Glyph,
    cursor: int,
    max_height: int,
) -> Seq<u32> {
    blit(pixels, stride, glyph, cursor, max_height, glyph.bitmap@.len() as int)
}

/// Where the cursor stands after `text`: the widths of its cached characters
/// added up. A character without a glyph does not move it.
pub open spec fn advance(glyphs: Map<u32, Glyph>, text: Seq<char>) -> int
    decreases text.len(),
{
    if text.len() == 0 {
        0
    } else {
        let before = advance(glyphs, text.drop_last());
        if glyphs.contains_key(text.last() as u32) {
            before + glyphs[text.last() as u32].width
        } else {
            before
        }
    }
}

/// The pixels once `text` has been drawn from a cursor of zero: each cached
/// character is blitted where the characters before it left the cursor, and
/// a character without a glyph is passed over.
pub open spec fn draw_text(
    pixels: Seq<u32>,
    stride: int,
    glyphs: Map<u32, Glyph>,
    text: Seq<char>,
    max_height: int,
) -> Seq<u32>
    decreases text.len(),
{
    if text.len() == 0 {
        pixels
    } else {
        let drawn = draw_text(pixels, stride, glyphs, text.drop_last(), max_height);
        let key = text.last() as u32;
        if glyphs.contains_key(key) {
            draw_glyph_on(
                drawn,
                stride,
                glyphs[key],
                advance(glyphs, text.drop_last()),
                max_height,
            )
        } else {
            drawn
        }
    }
}

/// The destination of bitmap byte `index`, if the byte's place is inside a
/// buffer of `len` pixels and left of its right edge.
fn locate(
    len: usize,
    stride: usize,
    glyph: &Glyph,
    cursor: usize,
    max_height: usize,
    index: usize,
) -> (found: Option<usize>)
    ensures
        found matches Some(position) ==> position == destination(
            stride as int,
            *glyph,
            cursor as int,
            max_height as int,
            index as int,
        ),
        found is Some <==> lands(
            len as int,
            stride as int,
            *glyph,
            cursor as int,
            max_height as int,
            index as int,
        ),
{
    let width = glyph.width;
    if width == 0 {
        return None;
    }
    let row = index / width;
    let column = index % width;
    if cursor >= stride || column >= stride - cursor {
        return None;
    }
    let along = cursor + column;
    let ghost target = destination(
        stride as int,
        *glyph,
        cursor as int,
        max_height as int,
        index as int,
    );
    let down: u128 = max_height as u128 + row as u128;
    if down < glyph.height as u128 {
        // The glyph row lies above the top of the buffer.
        assert(target < 0) by (nonlinear_arith)
            requires
                target == stride * (max_height - glyph.height + row) + along,
                max_height - glyph.height + row <= -1,
                0 <= along < stride,
        ;
        return None;
    }
    let rows: u128 = down - glyph.height as u128;
    assert(target == stride * rows + along && stride * rows >= 0) by (nonlinear_arith)
        requires
            target == stride * (max_height - glyph.height + row) + along,
            rows == max_height - glyph.height + row,
            stride >= 0,
            rows >= 0,
    ;
    let base = match (stride as u128).checked_mul(rows) {
        Some(base) => base,
        None => {
            return None;
        },
    };
    match base.checked_add(along as u128) {
        Some(position) => if position < len as u128 {
            Some(position as usize)
        } else {
            None
        },
        None => None,
    }
}

/// Blits one glyph at the cursor: a two-dimensional copy of its bitmap, row
/// under row. Every byte of nonzero coverage becomes a gray pixel; bytes
/// whose place is right of the buffer's edge, above it or below it are
/// dropped.
pub fn draw_glyph(
    glyph: &Glyph,
    framebuffer: &mut FrameBuffer,
    cursor: usize,
    max_glyph_height: usize,
)
    ensures
        final(framebuffer)@ == draw_glyph_on(
            old(framebuffer)@,
            old(framebuffer).columns() as int,
            *glyph,
            cursor as int,
            max_glyph_height as int,
        ),
        final(framebuffer)@.len() == old(framebuffer)@.len(),
        final(framebuffer).columns() == old(framebuffer).columns(),
        final(framebuffer).rows() == old(framebuffer).rows(),
        final(framebuffer).wf() == old(framebuffer).wf(),
{
    let stride = framebuffer.width();
    let len = framebuffer.len();
    let count = glyph.bitmap.len();
    let mut index: usize = 0;
    while index < count
        invariant
            index <= count,
            count == glyph.bitmap@.len(),
            stride == old(framebuffer).columns(),
            len == old(framebuffer)@.len(),
            framebuffer@ == blit(
                old(framebuffer)@,
                stride as int,
                *glyph,
                cursor as int,
                max_glyph_height as int,
                index as int,
            ),
            framebuffer@.len() == len,
            framebuffer.columns() == old(framebuffer).columns(),
            framebuffer.rows() == old(framebuffer).rows(),
            framebuffer.wf() == old(framebuffer).wf(),
        decreases count - index,
    {
        let intensity = glyph.bitmap[index];
        if intensity > 0 {
            match locate(len, stride, glyph, cursor, max_glyph_height, index) {
                Some(position) => {
                    framebuffer.put(position, gray_pixel(intensity));
                },
                None => {},
            }
        }
        index += 1;
    }
}

/// Blitting never changes the number of pixels.
pub proof fn lemma_blit_keeps_length(
    pixels: Seq<u32>,
    stride: int,
    glyph: Glyph,
    cursor: int,
    max_height: int,
    count: int,
)
    ensures
        blit(pixels, stride, glyph, cursor, max_height, count).len() == pixels.len(),
    decreases count,
{
    if count > 0 {
        lemma_blit_keeps_length(pixels, stride, glyph, cursor, max_height, count - 1);
    }
}

/// A glyph whose cursor stands at the right edge of the buffer or beyond is
/// dropped altogether.
pub proof fn lemma_blit_beyond_the_edge(
    pixels: Seq<u32>,
    stride: int,
    glyph: Glyph,
    cursor: int,
    max_height: int,
    count: int,
)
    requires
        cursor >= stride,
    ensures
        blit(pixels, stride, glyph, cursor, max_height, count) == pixels,
    decreases count,
{
    if count > 0 {
        lemma_blit_beyond_the_edge(pixels, stride, glyph, cursor, max_height, count - 1);
        if glyph.width > 0 {
            assert((count - 1) % (glyph.width as int) >= 0) by (nonlinear_arith)
                requires
                    glyph.width > 0,
            ;
        }
    }
}

/// The cursor never moves left.
pub proof fn lemma_advance_nonnegative(glyphs: Map<u32, Glyph>, text: Seq<char>)
    ensures
        advance(glyphs, text) >= 0,
    decreases text.len(),
{
    if text.len() > 0 {
        lemma_advance_nonnegative(glyphs, text.drop_last());
    }
}

/// Drawing text writes inside the buffer only: the buffer is as long after
/// it as before, whatever the text, the glyphs and the buffer's size.
pub proof fn lemma_draw_text_keeps_length(
    pixels: Seq<u32>,
    stride: int,
    glyphs: Map<u32, Glyph>,
    text: Seq<char>,
    max_height: int,
)
    ensures
        draw_text(pixels, stride, glyphs, text, max_height).len() == pixels.len(),
    decreases text.len(),
{
    if text.len() > 0 {
        let head = text.drop_last();
        lemma_draw_text_keeps_length(pixels, stride, glyphs, head, max_height);
        let key = text.last() as u32;
        if glyphs.contains_key(key) {
            lemma_blit_keeps_length(
                draw_text(pixels, stride, glyphs, head, max_height),
                stride,
                glyphs[key],
                advance(glyphs, head),
                max_height,
                glyphs[key].bitmap@.len() as int,
            );
        }
    }
}

/// Draws `text` from the left edge: each character that has a glyph is
/// blitted at the cursor and moves the cursor on by the glyph's width; a
/// character without a glyph is skipped.
pub fn draw_string(
    glyphs: &HashMap<u32, Glyph>,
    framebuffer: &mut FrameBuffer,
    text: &str,
    max_height: usize,
)
    ensures
        final(framebuffer)@ == draw_text(
            old(framebuffer)@,
            old(framebuffer).columns() as int,
            glyphs@,
            text@,
            max_height as int,
        ),
        final(framebuffer)@.len() == old(framebuffer)@.len(),
        final(framebuffer).columns() == old(framebuffer).columns(),
        final(framebuffer).rows() == old(framebuffer).rows(),
        final(framebuffer).wf() == old(framebuffer).wf(),
{
    let stride = framebuffer.width();
    let mut cursor: usize = 0;
    let characters = text.chars();
    for character in iter: characters
        invariant
            iter.seq() == text@,
            stride == old(framebuffer).columns(),
            framebuffer@ == draw_text(
                old(framebuffer)@,
                stride as int,
                glyphs@,
                text@.take(iter.index()),
                max_height as int,
            ),
            cursor == if advance(glyphs@, text@.take(iter.index())) < usize::MAX {
                advance(glyphs@, text@.take(iter.index()))
            } else {
                usize::MAX as int
            },
            framebuffer.columns() == old(framebuffer).columns(),
            framebuffer.rows() == old(framebuffer).rows(),
            framebuffer.wf() == old(framebuffer).wf(),
    {
        let ghost done = text@.take(iter.index());
        let ghost next = text@.take(iter.index() + 1);
        proof {
            assert(next.drop_last() =~= done);
            assert(next.last() == character);
            lemma_advance_nonnegative(glyphs@, done);
        }
        let key: u32 = character as u32;
        match glyphs.get(&key) {
            Some(glyph) => {
                proof {
                    if advance(glyphs@, done) >= usize::MAX {
                        // Both the cursor and where it would stand unbounded
                        // lie beyond the right edge.
                        let count = glyph.bitmap@.len() as int;
                        lemma_blit_beyond_the_edge(
                            framebuffer@,
                            stride as int,
                            *glyph,
                            cursor as int,
                            max_height as int,
                            count,
                        );
                        lemma_blit_beyond_the_edge(
                            framebuffer@,
                            stride as int,
                            *glyph,
                            advance(glyphs@, done),
                            max_height as int,
                            count,
                        );
                    }
                }
                draw_glyph(glyph, framebuffer, cursor, max_height);
                cursor = cursor.saturating_add(glyph.width);
            },
            None => {},
        }
    }
    assert(text@.take(text@.len() as int) =~= text@);
    proof {
        lemma_draw_text_keeps_length(
            old(framebuffer)@,
            stride as int,
            glyphs@,
            text@,
            max_height as int,
        );
    }
}

/// The last of the first `count` bitmap bytes that is drawn at `position`,
/// or -1 where none of them is.
pub open spec fn last_writer(
    len: int,
    stride: int,
    glyph: Glyph,
    cursor: int,
    max_height: int,
    count: int,
    position: int,
) -> int
    decreases count,
{
    if count <= 0 {
        -1
    } else if is_drawn(len, stride, glyph, cursor, max_height, count - 1) && destination(
        stride,
        glyph,
        cursor,
        max_height,
        count - 1,
    ) == position {
        count - 1
    } else {
        last_writer(len, stride, glyph, cursor, max_height, count - 1, position)
    }
}

/// What a blit leaves in each pixel: the gray of the last drawn byte whose
/// destination the pixel is, and what was there before where no drawn byte
/// goes to it. Which byte that is does not depend on what the buffer held.
pub proof fn lemma_blit_pixel(
    pixels: Seq<u32>,
    stride: int,
    glyph: Glyph,
    cursor: int,
    max_height: int,
    count: int,
    position: int,
)
    requires
        0 <= position < pixels.len(),
    ensures
        ({
            let len = pixels.len() as int;
            let drawn = blit(pixels, stride, glyph, cursor, max_height, count);
            let writer = last_writer(len, stride, glyph, cursor, max_height, count, position);
            &&& drawn.len() == pixels.len()
            &&& -1 <= writer
            &&& writer < count || writer == -1
            &&& writer >= 0 ==> {
                &&& is_drawn(len, stride, glyph, cursor, max_height, writer)
                &&& destination(stride, glyph, cursor, max_height, writer) == position
                &&& drawn[position] == gray(glyph.bitmap@[writer])
            }
            &&& writer < 0 ==> drawn[position] == pixels[position]
        }),
    decreases count,
{
    if count > 0 {
        lemma_blit_pixel(pixels, stride, glyph, cursor, max_height, count - 1, position);
    }
}

/// A byte that is drawn at `position` makes sure that the position has a
/// writer, and that the last one does not come before it.
pub proof fn lemma_writer_exists(
    len: int,
    stride: int,
    glyph: Glyph,
    cursor: int,
    max_height: int,
    count: int,
    position: int,
    index: int,
)
    requires
        0 <= index < count,
        is_drawn(len, stride, glyph, cursor, max_height, index),
        destination(stride, glyph, cursor, max_height, index) == position,
    ensures
        last_writer(len, stride, glyph, cursor, max_height, count, position) >= index,
    decreases count,
{
    if index < count - 1 {
        lemma_writer_exists(len, stride, glyph, cursor, max_height, count - 1, position, index);
    }
}

/// Two places in a grid of `stride` columns are the same position only if
/// they are the same row and the same column.
proof fn lemma_same_cell(stride: int, row: int, column: int, other_row: int, other_column: int)
    by (nonlinear_arith)
    requires
        0 <= column < stride,
        0 <= other_column < stride,
        stride * row + column == stride * other_row + other_column,
    ensures
        row == other_row,
        column == other_column,
{
}

/// Whether the glyph is a full grid that lies inside the buffer as a
/// whole: it has a byte for each of its pixels, it is no taller than the
/// line it is aligned to, and neither the right edge nor the end of the
/// buffer cuts it.
pub open spec fn fits(len: int, stride: int, glyph: Glyph, cursor: int, max_height: int) -> bool {
    &&& glyph.width > 0
    &&& glyph.bitmap@.len() == glyph.width * glyph.height
    &&& 0 <= cursor
    &&& cursor + glyph.width <= stride
    &&& glyph.height <= max_height
    &&& stride * max_height <= len
}

/// The position of row `row`, column `column` of a glyph's box.
pub open spec fn box_position(
    stride: int,
    glyph: Glyph,
    cursor: int,
    max_height: int,
    row: int,
    column: int,
) -> int {
    stride * (max_height - glyph.height + row) + cursor + column
}

/// A glyph that fits fills its box: the pixel of each row and column of
/// the box holds the gray of the glyph's byte for that row and column, or
/// what it held before where the byte has no coverage.
pub proof fn lemma_glyph_fills_its_box(
    pixels: Seq<u32>,
    stride: int,
    glyph: Glyph,
    cursor: int,
    max_height: int,
    row: int,
    column: int,
)
    requires
        fits(pixels.len() as int, stride, glyph, cursor, max_height),
        0 <= row < glyph.height,
        0 <= column < glyph.width,
    ensures
        ({
            let intensity = glyph.bitmap@[row * glyph.width + column];
            let position = box_position(stride, glyph, cursor, max_height, row, column);
            let drawn = draw_glyph_on(pixels, stride, glyph, cursor, max_height);
            &&& 0 <= row * glyph.width + column < glyph.bitmap@.len()
            &&& 0 <= position < pixels.len()
            &&& drawn[position] == if intensity > 0 {
                gray(intensity)
            } else {
                pixels[position]
            }
        }),
{
    let width = glyph.width as int;
    let height = glyph.height as int;
    let count = glyph.bitmap@.len() as int;
    let len = pixels.len() as int;
    let index = row * width + column;
    let position = box_position(stride, glyph, cursor, max_height, row, column);
    let down = max_height - height + row;
    assert(0 <= index < width * height && 0 <= stride * down && stride * down + stride <= stride
        * max_height) by (nonlinear_arith)
        requires
            0 <= row < height,
            0 <= column < width,
            index == row * width + column,
            0 <= down < max_height,
            stride > 0,
    ;
    vstd::arithmetic::div_mod::lemma_fundamental_div_mod_converse(index, width, row, column);
    assert(destination(stride, glyph, cursor, max_height, index) == position);
    assert(lands(len, stride, glyph, cursor, max_height, index));
    lemma_blit_pixel(pixels, stride, glyph, cursor, max_height, count, position);
    let writer = last_writer(len, stride, glyph, cursor, max_height, count, position);
    if glyph.bitmap@[index] > 0 {
        lemma_writer_exists(len, stride, glyph, cursor, max_height, count, position, index);
    }
    if writer >= 0 {
        assert(0 <= writer % width < width) by (nonlinear_arith)
            requires
                width > 0,
                writer >= 0,
        ;
        lemma_same_cell(
            stride,
            max_height - height + writer / width,
            cursor + writer % width,
            down,
            cursor + column,
        );
        vstd::arithmetic::div_mod::lemma_fundamental_div_mod(writer, width);
        assert(writer == index) by (nonlinear_arith)
            requires
                writer == width * (writer / width) + writer % width,
                writer / width == row,
                writer % width == column,
                index == row * width + column,
        ;
    }
}

/// A glyph that fits leaves every pixel outside its box as it was.
pub proof fn lemma_glyph_leaves_the_rest(
    pixels: Seq<u32>,
    stride: int,
    glyph: Glyph,
    cursor: int,
    max_height: int,
    position: int,
)
    requires
        fits(pixels.len() as int, stride, glyph, cursor, max_height),
        0 <= position < pixels.len(),
        forall|row: int, column: int|
            0 <= row < glyph.height && 0 <= column < glyph.width ==> #[trigger] box_position(
                stride,
                glyph,
                cursor,
                max_height,
                row,
                column,
            ) != position,
    ensures
        draw_glyph_on(pixels, stride, glyph, cursor, max_height)[position] == pixels[position],
{
    let width = glyph.width as int;
    let height = glyph.height as int;
    let count = glyph.bitmap@.len() as int;
    let len = pixels.len() as int;
    lemma_blit_pixel(pixels, stride, glyph, cursor, max_height, count, position);
    let writer = last_writer(len, stride, glyph, cursor, max_height, count, position);
    if writer >= 0 {
        assert(0 <= writer / width < height && 0 <= writer % width < width) by (nonlinear_arith)
            requires
                width > 0,
                0 <= writer < width * height,
        ;
        assert(box_position(stride, glyph, cursor, max_height, writer / width, writer % width)
            == position);
    }
}

/// What drawing text leaves in a pixel is either the same whatever the
/// buffer held before, or what the buffer held there.
pub proof fn lemma_draw_text_pixel(
    first: Seq<u32>,
    second: Seq<u32>,
    stride: int,
    glyphs: Map<u32, Glyph>,
    text: Seq<char>,
    max_height: int,
    position: int,
)
    requires
        first.len() == second.len(),
        0 <= position < first.len(),
    ensures
        ({
            let one = draw_text(first, stride, glyphs, text, max_height);
            let other = draw_text(second, stride, glyphs, text, max_height);
            &&& one.len() == first.len()
            &&& other.len() == first.len()
            &&& one[position] == other[position] || (one[position] == first[position]
                && other[position] == second[position])
        }),
    decreases text.len(),
{
    lemma_draw_text_keeps_length(first, stride, glyphs, text, max_height);
    lemma_draw_text_keeps_length(second, stride, glyphs, text, max_height);
    if text.len() > 0 {
        let head = text.drop_last();
        lemma_draw_text_pixel(first, second, stride, glyphs, head, max_height, position);
        lemma_draw_text_keeps_length(first, stride, glyphs, head, max_height);
        lemma_draw_text_keeps_length(second, stride, glyphs, head, max_height);
        let key = text.last() as u32;
        if glyphs.contains_key(key) {
            let count = glyphs[key].bitmap@.len() as int;
            lemma_blit_pixel(
                draw_text(first, stride, glyphs, head, max_height),
                stride,
                glyphs[key],
                advance(glyphs, head),
                max_height,
                count,
                position,
            );
            lemma_blit_pixel(
                draw_text(second, stride, glyphs, head, max_height),
                stride,
                glyphs[key],
                advance(glyphs, head),
                max_height,
                count,
                position,
            );
        }
    }
}

/// Drawing is idempotent: text drawn a second time over itself changes
/// nothing.
pub proof fn lemma_draw_text_is_idempotent(
    pixels: Seq<u32>,
    stride: int,
    glyphs: Map<u32, Glyph>,
    text: Seq<char>,
    max_height: int,
)
    ensures
        draw_text(
            draw_text(pixels, stride, glyphs, text, max_height),
            stride,
            glyphs,
            text,
            max_height,
        ) == draw_text(pixels, stride, glyphs, text, max_height),
{
    let once = draw_text(pixels, stride, glyphs, text, max_height);
    let twice = draw_text(once, stride, glyphs, text, max_height);
    lemma_draw_text_keeps_length(pixels, stride, glyphs, text, max_height);
    lemma_draw_text_keeps_length(once, stride, glyphs, text, max_height);
    assert forall|position: int| 0 <= position < once.len() implies twice[position]
        == once[position] by {
        lemma_draw_text_pixel(pixels, once, stride, glyphs, text, max_height, position);
    }
    assert(twice =~= once);
}

/// A glyph without a bitmap draws nothing; in text it only moves the
/// cursor on by its width.
pub proof fn lemma_flat_glyph_only_moves_the_cursor(
    pixels: Seq<u32>,
    stride: int,
    glyphs: Map<u32, Glyph>,
    text: Seq<char>,
    character: char,
    max_height: int,
)
    requires
        is_cached(glyphs, character),
        glyphs[character as u32].bitmap@.len() == 0,
    ensures
        draw_text(pixels, stride, glyphs, text.push(character), max_height) == draw_text(
            pixels,
            stride,
            glyphs,
            text,
            max_height,
        ),
        advance(glyphs, text.push(character)) == advance(glyphs, text) + glyphs[character
            as u32].width,
{
    assert(text.push(character).drop_last() =~= text);
}

/// The frame that shows `text`: a grid cleared to the background colour, with
/// the text drawn on it, aligned to the tallest glyph of the cache.
pub open spec fn rendering(glyphs: Map<u32, Glyph>, text: Seq<char>, width: nat, height: nat) -> Seq<
    u32,
> {
    draw_text(cleared(width, height), width as int, glyphs, text, tallest(glyphs) as int)
}

/// Drawing the empty text leaves every pixel as it was, and the frame that
/// shows the empty text is the cleared grid.
pub proof fn lemma_empty_text_draws_nothing(
    pixels: Seq<u32>,
    stride: int,
    glyphs: Map<u32, Glyph>,
    max_height: int,
    width: nat,
    height: nat,
)
    ensures
        draw_text(pixels, stride, glyphs, Seq::<char>::empty(), max_height) == pixels,
        rendering(glyphs, Seq::<char>::empty(), width, height) == cleared(width, height),
{
}

/// Drawing is a function of what is drawn: the same text drawn with the same
/// glyphs into two buffers that hold the same pixels leaves the same pixels
/// in both.
pub proof fn lemma_draw_text_is_deterministic(
    first: Seq<u32>,
    second: Seq<u32>,
    stride: int,
    glyphs: Map<u32, Glyph>,
    text: Seq<char>,
    max_height: int,
)
    requires
        first =~= second,
    ensures
        draw_text(first, stride, glyphs, text, max_height) == draw_text(
            second,
            stride,
            glyphs,
            text,
            max_height,
        ),
{
}

/// Whether the cache holds a glyph for the character.
pub open spec fn is_cached(glyphs: Map<u32, Glyph>, character: char) -> bool {
    glyphs.contains_key(character as u32)
}

/// Characters without a glyph leave no trace: text draws the same pixels and
/// moves the cursor as far as the text without them does.
pub proof fn lemma_uncached_characters_leave_no_trace(
    pixels: Seq<u32>,
    stride: int,
    glyphs: Map<u32, Glyph>,
    text: Seq<char>,
    max_height: int,
)
    ensures
        ({
            let kept = text.filter(|character: char| is_cached(glyphs, character));
            &&& advance(glyphs, text) == advance(glyphs, kept)
            &&& draw_text(pixels, stride, glyphs, text, max_height) == draw_text(
                pixels,
                stride,
                glyphs,
                kept,
                max_height,
            )
        }),
    decreases text.len(),
{
    reveal(Seq::filter);
    let cached = |character: char| is_cached(glyphs, character);
    if text.len() > 0 {
        let head = text.drop_last();
        lemma_uncached_characters_leave_no_trace(pixels, stride, glyphs, head, max_height);
        if cached(text.last()) {
            let kept = head.filter(cached).push(text.last());
            assert(text.filter(cached) == kept);
            assert(kept.drop_last() =~= head.filter(cached));
            assert(kept.last() == text.last());
        } else {
            assert(text.filter(cached) == head.filter(cached));
        }
    }
}

/// Text of which the cache holds no character draws nothing and leaves the
/// cursor where it was.
pub proof fn lemma_uncached_text_draws_nothing(
    pixels: Seq<u32>,
    stride: int,
    glyphs: Map<u32, Glyph>,
    text: Seq<char>,
    max_height: int,
)
    requires
        forall|at: int| 0 <= at < text.len() ==> !is_cached(glyphs, #[trigger] text[at]),
    ensures
        advance(glyphs, text) == 0,
        draw_text(pixels, stride, glyphs, text, max_height) == pixels,
    decreases text.len(),
{
    if text.len() > 0 {
        let head = text.drop_last();
        assert forall|at: int| 0 <= at < head.len() implies !is_cached(glyphs, #[trigger] head[at]) by {
            assert(head[at] == text[at]);
        }
        lemma_uncached_text_draws_nothing(pixels, stride, glyphs, head, max_height);
        assert(!is_cached(glyphs, text[text.len() - 1]));
    }
}

/// Renders one frame: a grid of the given size, cleared to the background
/// colour, with `text` drawn on it. A surface without area gets no frame,
/// and neither does one with more pixels than the machine can count.
pub fn render_frame(glyphs: &HashMap<u32, Glyph>, text: &str, width: usize, height: usize) -> (frame:
    Option<FrameBuffer>)
    ensures
        frame is Some <==> width > 0 && height > 0 && width * height <= usize::MAX,
        frame matches Some(framebuffer) ==> {
            &&& framebuffer.wf()
            &&& framebuffer.columns() == width
            &&& framebuffer.rows() == height
            &&& framebuffer@ == rendering(glyphs@, text@, width as nat, height as nat)
            &&& framebuffer@.len() == width * height
        },
{
    if width == 0 || height == 0 {
        return None;
    }
    let mut framebuffer = match FrameBuffer::new(width, height) {
        Some(framebuffer) => framebuffer,
        None => {
            return None;
        },
    };
    let max_height = if glyphs.len() > 0 {
        let max_height = get_max_glyph_height(glyphs);
        proof {
            lemma_max_glyph_height_is_unique(glyphs@, max_height);
        }
        max_height
    } else {
        proof {
            assert(glyphs@.dom().finite());
            assert(glyphs@.dom().len() == 0);
            assert forall|at: int| 0 <= at < text@.len() implies !is_cached(
                glyphs@,
                #[trigger] text@[at],
            ) by {
                if glyphs@.dom().contains(text@[at] as u32) {
                    assert(glyphs@.dom().len() > 0);
                }
            }
            lemma_uncached_text_draws_nothing(
                framebuffer@,
                width as int,
                glyphs@,
                text@,
                0,
            );
            lemma_uncached_text_draws_nothing(
                framebuffer@,
                width as int,
                glyphs@,
                text@,
                tallest(glyphs@) as int,
            );
        }
        0
    };
    draw_string(glyphs, &mut framebuffer, text, max_height);
    Some(framebuffer)
}

} // verus!
