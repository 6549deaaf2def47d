//! Images in CPU memory: a run of bytes, read as rows of pixels.

use vstd::arithmetic::div_mod::*;
use vstd::prelude::*;
use vstd::slice::*;

verus! {

/// Describes the binary representation of a pixel in a pixel buffer.
#[derive(Clone, Copy, Debug, PartialEq, Eq)]
pub enum PixelFormat {
    /// Red, green, blue and alpha, one byte each.
    Rgba8,
}

impl PixelFormat {
    /// Number of bytes that a pixel takes.
    pub open spec fn spec_bytes_per_pixel(self) -> nat {
        4
    }

    /// Number of bytes that a pixel takes.
    #[must_use]
    pub fn bytes_per_pixel(self) -> (bytes: usize)
        ensures
            bytes == self.spec_bytes_per_pixel(),
    {
        match self {
            Self::Rgba8 => 4,
        }
    }
}

/// Describes how the color values of a pixel buffer are interpreted.
#[derive(Clone, Copy, Debug, Default, PartialEq, Eq)]
pub enum ColorSpace {
    #[default]
    Srgb,
}

/// Number of bytes in a row of `width` pixels.
pub open spec fn row_pitch(width: u32, format: PixelFormat) -> nat {
    width as nat * format.spec_bytes_per_pixel()
}

/// Whether `len` bytes are whole rows of `width` pixels.
pub open spec fn whole_rows(len: nat, width: u32, format: PixelFormat) -> bool {
    row_pitch(width, format) > 0 && len % row_pitch(width, format) == 0
}

/// A pixel buffer as contracts see it.
pub struct PixelBufferView {
    pub format: PixelFormat,
    pub color_space: ColorSpace,
    pub width: u32,
    pub bytes: Seq<u8>,
}

impl PixelBufferView {
    /// Number of bytes in a row.
    pub open spec fn row_pitch(self) -> nat {
        row_pitch(self.width, self.format)
    }

    /// Number of whole rows that the bytes make up.
    pub open spec fn rows(self) -> nat {
        self.bytes.len() / self.row_pitch()
    }

    /// The bytes of row `i`.
    pub open spec fn row(self, i: int) -> Seq<u8> {
        self.bytes.subrange(i * self.row_pitch(), (i + 1) * self.row_pitch())
    }
}

/// A pixel buffer that owns its bytes.
#[derive(Clone)]
pub struct PixelBuffer {
    format: PixelFormat,
    color_space: ColorSpace,
    width: u32,
    bytes: Vec<u8>,
}

impl View for PixelBuffer {
    type V = PixelBufferView;

    closed spec fn view(&self) -> PixelBufferView {
        PixelBufferView {
            format: self.format,
            color_space: self.color_space,
            width: self.width,
            bytes: self.bytes@,
        }
    }
}

impl PixelBuffer {
    /// Creates a pixel buffer from a byte array. The byte array will be copied
    /// into the pixel buffer.
    #[must_use]
    pub fn from_bytes(
        bytes: &[u8],
        width: u32,
        format: PixelFormat,
        color_space: ColorSpace,
    ) -> (buffer: Self)
        ensures
            buffer@ == (PixelBufferView { format, color_space, width, bytes: bytes@ }),
    {
        Self { format, color_space, width, bytes: slice_to_vec(bytes) }
    }

    /// Creates a pixel buffer of `width` by `height` pixels from bytes that hold
    /// exactly that many pixels.
    #[must_use]
    pub fn new(
        bytes: Vec<u8>,
        width: u32,
        height: u32,
        format: PixelFormat,
        color_space: ColorSpace,
    ) -> (buffer: Self)
        requires
            bytes@.len() == width * height * format.spec_bytes_per_pixel(),
        ensures
            buffer@ == (PixelBufferView { format, color_space, width, bytes: bytes@ }),
            width > 0 ==> buffer@.rows() == height,
    {
        proof {
            if width > 0 {
                let pitch = row_pitch(width, format) as int;
                assert(width * height * 4 == pitch * height) by (nonlinear_arith)
                    requires
                        pitch == width * 4,
                ;
                lemma_div_multiples_vanish(height as int, pitch);
            }
        }
        Self { format, color_space, width, bytes }
    }

    /// How the bytes of a pixel are laid out.
    #[must_use]
    pub fn format(&self) -> (format: PixelFormat)
        ensures
            format == self@.format,
    {
        self.format
    }

    /// How the color values are interpreted.
    #[must_use]
    pub fn color_space(&self) -> (color_space: ColorSpace)
        ensures
            color_space == self@.color_space,
    {
        self.color_space
    }

    /// Number of pixels in a row.
    #[must_use]
    pub fn width(&self) -> (width: u32)
        ensures
            width == self@.width,
    {
        self.width
    }

    /// Number of whole rows. The buffer is not empty in width, and the number
    /// fits in 32 bits.
    #[must_use]
    pub fn height(&self) -> (height: u32)
        requires
            self@.width > 0,
            self@.row_pitch() <= usize::MAX,
            self@.rows() <= u32::MAX,
        ensures
            height == self@.rows(),
    {
        rows_in(self.bytes.len(), self.width, self.format)
    }

    /// The bytes of all rows, one row after the other.
    #[must_use]
    pub fn bytes(&self) -> (bytes: &[u8])
        ensures
            bytes@ == self@.bytes,
    {
        self.bytes.as_slice()
    }

    /// Walks the rows from the first to the last.
    #[must_use]
    pub fn rows(&self) -> (rows: RowIter<'_>)
        requires
            self@.row_pitch() <= usize::MAX,
        ensures
            rows@ == (RowIterView { row_pitch: self@.row_pitch(), cursor: 0, bytes: self@.bytes }),
    {
        RowIter {
            row_pitch: self.width as usize * self.format.bytes_per_pixel(),
            cursor: 0,
            bytes: self.bytes.as_slice(),
        }
    }

    /// The same pixels, borrowed.
    #[must_use]
    pub fn as_ref(&self) -> (buffer: PixelBufferRef<'_>)
        ensures
            buffer@ == self@,
    {
        PixelBufferRef {
            format: self.format,
            color_space: self.color_space,
            width: self.width,
            bytes: self.bytes.as_slice(),
        }
    }
}

/// Number of whole rows of `width` pixels in `len` bytes.
fn rows_in(len: usize, width: u32, format: PixelFormat) -> (rows: u32)
    requires
        width > 0,
        row_pitch(width, format) <= usize::MAX,
        len as nat / row_pitch(width, format) <= u32::MAX,
    ensures
        rows == len as nat / row_pitch(width, format),
{
    let row_size: usize = width as usize * format.bytes_per_pixel();
    let num_rows: usize = len / row_size;
    num_rows as u32
}

/// A pixel buffer representation over a slice of pixels.
#[derive(Clone, Copy)]
pub struct PixelBufferRef<'a> {
    format: PixelFormat,
    color_space: ColorSpace,
    width: u32,
    bytes: &'a [u8],
}

impl<'a> View for PixelBufferRef<'a> {
    type V = PixelBufferView;

    closed spec fn view(&self) -> PixelBufferView {
        PixelBufferView {
            format: self.format,
            color_space: self.color_space,
            width: self.width,
            bytes: self.bytes@,
        }
    }
}

impl<'a> PixelBufferRef<'a> {
    /// Creates a pixel buffer over a byte array that holds whole rows of
    /// `width` pixels.
    #[must_use]
    pub fn from_bytes(
        bytes: &'a [u8],
        width: u32,
        format: PixelFormat,
        color_space: ColorSpace,
    ) -> (buffer: Self)
        requires
            whole_rows(bytes@.len(), width, format),
        ensures
            buffer@ == (PixelBufferView { format, color_space, width, bytes: bytes@ }),
    {
        Self { format, color_space, width, bytes }
    }

    /// How the bytes of a pixel are laid out.
    #[must_use]
    pub fn format(&self) -> (format: PixelFormat)
        ensures
            format == self@.format,
    {
        self.format
    }

    /// How the color values are interpreted.
    #[must_use]
    pub fn color_space(&self) -> (color_space: ColorSpace)
        ensures
            color_space == self@.color_space,
    {
        self.color_space
    }

    /// Number of pixels in a row.
    #[must_use]
    pub fn width(&self) -> (width: u32)
        ensures
            width == self@.width,
    {
        self.width
    }

    /// Number of whole rows. The buffer is not empty in width, and the number
    /// fits in 32 bits.
    #[must_use]
    pub fn height(&self) -> (height: u32)
        requires
            self@.width > 0,
            self@.row_pitch() <= usize::MAX,
            self@.rows() <= u32::MAX,
        ensures
            height == self@.rows(),
    {
        rows_in(self.bytes.len(), self.width, self.format)
    }

    /// The bytes of all rows, one row after the other.
    #[must_use]
    pub fn bytes(&self) -> (bytes: &'a [u8])
        ensures
            bytes@ == self@.bytes,
    {
        self.bytes
    }

    /// Walks the rows from the first to the last.
    #[must_use]
    pub fn rows(&self) -> (rows: RowIter<'a>)
        requires
            self@.row_pitch() <= usize::MAX,
        ensures
            rows@ == (RowIterView { row_pitch: self@.row_pitch(), cursor: 0, bytes: self@.bytes }),
    {
        RowIter {
            row_pitch: self.width as usize * self.format.bytes_per_pixel(),
            cursor: 0,
            bytes: self.bytes,
        }
    }
}

/// A walk over the rows of a pixel buffer, as contracts see it.
pub struct RowIterView {
    pub row_pitch: nat,
    /// The offset of the row that comes next.
    pub cursor: nat,
    pub bytes: Seq<u8>,
}

/// A walk over the rows of a pixel buffer.
pub struct RowIter<'a> {
    row_pitch: usize,
    cursor: usize,
    bytes: &'a [u8],
}

impl<'a> View for RowIter<'a> {
    type V = RowIterView;

    closed spec fn view(&self) -> RowIterView {
        RowIterView {
            row_pitch: self.row_pitch as nat,
            cursor: self.cursor as nat,
            bytes: self.bytes@,
        }
    }
}

impl RowIterView {
    /// Whether a whole row lies behind the cursor, or nothing at all.
    pub open spec fn has_whole_row(self) -> bool {
        self.cursor < self.bytes.len() ==> self.cursor + self.row_pitch <= self.bytes.len()
    }
}

impl<'a> RowIter<'a> {
    /// The next row, or `None` behind the last one. What lies behind the cursor
    /// is a whole row at least, unless it is nothing.
    pub fn next(&mut self) -> (row: Option<&'a [u8]>)
        requires
            old(self)@.has_whole_row(),
        ensures
            match row {
                Some(bytes) => {
                    &&& old(self)@.cursor < old(self)@.bytes.len()
                    &&& bytes@ == old(self)@.bytes.subrange(
                        old(self)@.cursor as int,
                        (old(self)@.cursor + old(self)@.row_pitch) as int,
                    )
                    &&& final(self)@ == (RowIterView {
                        cursor: old(self)@.cursor + old(self)@.row_pitch,
                        ..old(self)@
                    })
                },
                None => old(self)@.cursor >= old(self)@.bytes.len() && final(self)@ == old(self)@,
            },
    {
        if self.cursor >= self.bytes.len() {
            return None;
        }
        let row = slice_subrange(self.bytes, self.cursor, self.cursor + self.row_pitch);
        self.cursor = self.cursor + self.row_pitch;
        Some(row)
    }
}

/// In bytes that are whole rows, a whole row lies behind every cursor that the
/// walk over the rows reaches.
pub proof fn lemma_whole_rows_are_walked(rows: RowIterView)
    requires
        rows.row_pitch > 0,
        rows.cursor <= rows.bytes.len(),
        (rows.bytes.len() - rows.cursor) % (rows.row_pitch as int) == 0,
    ensures
        rows.has_whole_row(),
        rows.cursor < rows.bytes.len() ==> (rows.bytes.len() - (rows.cursor + rows.row_pitch)) % (
        rows.row_pitch as int) == 0,
{
    let left = rows.bytes.len() - rows.cursor;
    let pitch = rows.row_pitch as int;
    if left > 0 {
        lemma_fundamental_div_mod(left, pitch);
        let q = left / pitch;
        assert(q >= 1) by (nonlinear_arith)
            requires
                left == pitch * q,
                left > 0,
                pitch > 0,
        ;
        assert(left - pitch == pitch * (q - 1)) by (nonlinear_arith)
            requires
                left == pitch * q,
        ;
        assert(left >= pitch) by (nonlinear_arith)
            requires
                left == pitch * q,
                q >= 1,
                pitch > 0,
        ;
        lemma_mod_multiples_basic(q - 1, pitch);
        assert((q - 1) * pitch == pitch * (q - 1)) by (nonlinear_arith);
    }
}

} // verus!
