//! The pixel grid that a frame is composed into before it is presented.

use vstd::prelude::*;

verus! {

/// The colour every frame is cleared to, packed as `0x00RRGGBB`.
pub const BACKGROUND: u32 = 0x00181818;

/// The pixel that shows a coverage value: red, green and blue all carry the
/// intensity, and the top byte stays zero.
pub open spec fn gray(intensity: u8) -> u32 {
    (intensity * 0x0001_0101) as u32
}

/// Packs a coverage value into a `0x00RRGGBB` pixel with three equal channels.
pub fn gray_pixel(intensity: u8) -> (pixel: u32)
    ensures
        pixel == gray(intensity),
{
    let level: u32 = intensity as u32;
    assert(level | (level << 8) | (level << 16) == level * 0x0001_0101) by (bit_vector)
        requires
            level < 256,
    ;
    level | (level << 8) | (level << 16)
}

/// A grid of `width` columns by `height` rows filled with the background colour.
pub open spec fn cleared(width: nat, height: nat) -> Seq<u32> {
    Seq::new(width * height, |i: int| BACKGROUND)
}

/// A row-major grid of `0x00RRGGBB` pixels; one row is `width` pixels long.
pub struct FrameBuffer {
    width: usize,
    height: usize,
    pixels: Vec<u32>,
}

impl View for FrameBuffer {
    type V = Seq<u32>;

    /// The pixels, row by row.
    closed spec fn view(&self) -> Seq<u32> {
        self.pixels@
    }
}

impl FrameBuffer {
    /// The number of columns, which is also the distance between two rows.
    pub closed spec fn columns(&self) -> nat {
        self.width as nat
    }

    /// The number of rows.
    pub closed spec fn rows(&self) -> nat {
        self.height as nat
    }

    /// The grid holds exactly one pixel per column and row.
    pub closed spec fn wf(&self) -> bool {
        self.pixels@.len() == self.width * self.height
    }

    /// A grid never holds more pixels than the machine can count, and a
    /// well-formed one holds `columns` times `rows` of them.
    pub proof fn lemma_len_fits(&self)
        ensures
            self@.len() <= usize::MAX,
            self.columns() <= usize::MAX,
            self.rows() <= usize::MAX,
            self.wf() ==> self@.len() == self.columns() * self.rows(),
    {
        assert(self.pixels@.len() == self.pixels.len());
    }

    /// A grid of the given size, cleared to the background colour. There is
    /// no grid when the number of its pixels does not fit the machine.
    pub fn new(width: usize, height: usize) -> (made: Option<FrameBuffer>)
        ensures
            made is Some <==> width * height <= usize::MAX,
            made matches Some(framebuffer) ==> {
                &&& framebuffer.wf()
                &&& framebuffer.columns() == width
                &&& framebuffer.rows() == height
                &&& framebuffer@ == cleared(width as nat, height as nat)
            },
    {
        match width.checked_mul(height) {
            Some(count) => {
                let pixels = vec![BACKGROUND; count];
                assert(pixels@ =~= cleared(width as nat, height as nat));
                Some(FrameBuffer { width, height, pixels })
            },
            None => None,
        }
    }

    /// The number of columns.
    pub fn width(&self) -> (width: usize)
        ensures
            width == self.columns(),
    {
        self.width
    }

    /// The number of rows.
    pub fn height(&self) -> (height: usize)
        ensures
            height == self.rows(),
    {
        self.height
    }

    /// The number of pixels in the grid.
    pub fn len(&self) -> (len: usize)
        ensures
            len == self@.len(),
    {
        self.pixels.len()
    }

    /// The pixels, row by row, ready to be handed to a presentation surface.
    pub fn pixels(&self) -> (pixels: &[u32])
        ensures
            pixels@ == self@,
    {
        self.pixels.as_slice()
    }

    /// Overwrites every pixel with the background colour.
    pub fn clear(&mut self)
        ensures
            final(self)@ == Seq::new(old(self)@.len(), |i: int| BACKGROUND),
            final(self).columns() == old(self).columns(),
            final(self).rows() == old(self).rows(),
            final(self).wf() == old(self).wf(),
    {
        let count = self.pixels.len();
        let mut index: usize = 0;
        while index < count
            invariant
                index <= count,
                count == self.pixels@.len(),
                self.width == old(self).width,
                self.height == old(self).height,
                self.pixels@.len() == old(self).pixels@.len(),
                forall|i: int| 0 <= i < index ==> self.pixels@[i] == BACKGROUND,
            decreases count - index,
        {
            self.pixels[index] = BACKGROUND;
            index += 1;
        }
        assert(self.pixels@ =~= Seq::new(old(self)@.len(), |i: int| BACKGROUND));
    }

    /// Writes one pixel. A position outside the grid is dropped: nothing is
    /// written and nothing fails.
    pub fn put(&mut self, index: usize, pixel: u32)
        ensures
            final(self)@ == if index < old(self)@.len() {
                old(self)@.update(index as int, pixel)
            } else {
                old(self)@
            },
            final(self).columns() == old(self).columns(),
            final(self).rows() == old(self).rows(),
            final(self).wf() == old(self).wf(),
    {
        if index < self.pixels.len() {
            self.pixels[index] = pixel;
        }
    }
}

} // verus!
