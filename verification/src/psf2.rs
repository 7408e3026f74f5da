//! Fonts in the PSF2 format.
//!
//! A font is a header of eight 32-bit numbers followed by the glyphs, all
//! of one size. A glyph is a bitmap, line after line, each line padded to
//! whole bytes.

use vstd::prelude::*;
use crate::elf::{le_u32, read_u32};

verus! {

/// The magic number of the format, byte by byte as a font starts with
/// it.
pub const PSF2_MAGIC: u32 = 0x72b54a86;

/// The size in bytes of a header.
pub const HEADER_SIZE: usize = 32;

/// PSF2 header.
#[derive(Copy, Clone, Debug, PartialEq, Eq, Structural)]
pub struct Header {
    pub magic: u32,
    pub version: u32,
    pub headersize: u32,
    pub flags: u32,
    /// Number of glyphs.
    pub length: u32,
    /// Number of bytes for each character.
    pub charsize: u32,
    /// Max height of a character in pixels.
    pub height: u32,
    /// Max width of a character in pixels.
    pub width: u32,
}

/// The header that `data` starts with.
pub open spec fn header_of(data: Seq<u8>) -> Header {
    Header {
        magic: le_u32(data, 0),
        version: le_u32(data, 4),
        headersize: le_u32(data, 8),
        flags: le_u32(data, 12),
        length: le_u32(data, 16),
        charsize: le_u32(data, 20),
        height: le_u32(data, 24),
        width: le_u32(data, 28),
    }
}

/// Where the glyph of `character` starts in `data`, if the font has the
/// character and `data` holds the whole glyph.
pub open spec fn glyph_start(data: Seq<u8>, character: u32) -> Option<int> {
    let header = header_of(data);
    let start = header.headersize + character * header.charsize;
    if character < header.length && start + header.charsize <= data.len() {
        Some(start)
    } else {
        None
    }
}

/// The byte at `at` in `data`, or 0 behind its end.
pub open spec fn byte_or_zero(data: Seq<u8>, at: int) -> u8 {
    if 0 <= at < data.len() {
        data[at]
    } else {
        0
    }
}

/// The 32-bit number in the four bytes at `at` in `data`, with 0 for the
/// bytes behind its end.
pub open spec fn word_at(data: Seq<u8>, at: int) -> u32 {
    (byte_or_zero(data, at) + 0x100 * byte_or_zero(data, at + 1) + 0x1_0000 * byte_or_zero(
        data,
        at + 2,
    ) + 0x100_0000 * byte_or_zero(data, at + 3)) as u32
}

/// A font in the PSF2 format.
pub struct Font {
    data: Vec<u8>,
}

impl View for Font {
    type V = Seq<u8>;

    /// The bytes of the font.
    closed spec fn view(&self) -> Seq<u8> {
        self.data@
    }
}

impl Font {
    /// Whether the font holds a whole header.
    pub open spec fn wf(&self) -> bool {
        self@.len() >= 32
    }

    /// Takes `data` as a font, if it is long enough to hold a header.
    pub fn read(data: Vec<u8>) -> (font: Option<Font>)
        ensures
            data@.len() >= 32 ==> font is Some && font->0@ == data@,
            data@.len() < 32 ==> font is None,
    {
        if data.len() < HEADER_SIZE {
            return None;
        }
        Some(Font { data })
    }

    /// The number of bytes of the font.
    pub fn data_len(&self) -> (len: usize)
        ensures
            len == self@.len(),
    {
        self.data.len()
    }

    /// Returns the font header.
    pub fn header(&self) -> (header: Header)
        requires
            self.wf(),
        ensures
            header == header_of(self@),
    {
        let data = self.data.as_slice();
        Header {
            magic: read_u32(data, 0),
            version: read_u32(data, 4),
            headersize: read_u32(data, 8),
            flags: read_u32(data, 12),
            length: read_u32(data, 16),
            charsize: read_u32(data, 20),
            height: read_u32(data, 24),
            width: read_u32(data, 28),
        }
    }

    /// Returns where the glyph of the given character lies: its place in
    /// the bytes of the font, if the font has the character.
    pub fn glyph_ptr(&self, character: u32) -> (offset: Option<usize>)
        requires
            self.wf(),
        ensures
            match glyph_start(self@, character) {
                Some(start) => offset matches Some(at) && at == start,
                None => offset is None,
            },
    {
        let header = self.header();
        if character >= header.length {
            return None;
        }
        proof {
            crate::graphics::lemma_product_fits(character, header.charsize);
        }
        let start = header.headersize as u64 + character as u64 * header.charsize as u64;
        if start + header.charsize as u64 > self.data.len() as u64 {
            return None;
        }
        Some(start as usize)
    }

    /// Returns how many bytes encode each row in a character.
    pub fn bytes_per_line(&self) -> (bytes: u32)
        requires
            self.wf(),
        ensures
            bytes == (header_of(self@).width + 7) / 8,
    {
        ((self.header().width as u64 + 7) / 8) as u32
    }

    /// The byte at `at`, or 0 behind the end of the font.
    fn byte(&self, at: u64) -> (value: u8)
        ensures
            value == byte_or_zero(self@, at as int),
    {
        if at < self.data.len() as u64 {
            self.data[at as usize]
        } else {
            0
        }
    }

    /// The 32-bit number in the four bytes at `at`, with 0 for the bytes
    /// behind the end of the font.
    pub fn word(&self, at: u64) -> (value: u32)
        ensures
            value == word_at(self@, at as int),
    {
        let len = self.data.len();
        if at > u64::MAX - 3 {
            let first = self.byte(at);
            assert(byte_or_zero(self@, at + 1) == 0 || at + 1 <= u64::MAX);
            let second = if at < u64::MAX {
                self.byte(at + 1)
            } else {
                0
            };
            let third = if at < u64::MAX - 1 {
                self.byte(at + 2)
            } else {
                0
            };
            let fourth = if at < u64::MAX - 2 {
                self.byte(at + 3)
            } else {
                0
            };
            first as u32 + 0x100 * (second as u32) + 0x1_0000 * (third as u32) + 0x100_0000 * (
            fourth as u32)
        } else {
            self.byte(at) as u32 + 0x100 * (self.byte(at + 1) as u32) + 0x1_0000 * (self.byte(
                at + 2,
            ) as u32) + 0x100_0000 * (self.byte(at + 3) as u32)
        }
    }

    /// The bytes of line `y` of the glyph that starts at `glyph`, read as a
    /// 32-bit number, with 0 for the bytes behind the end of the font.
    pub fn line(&self, glyph: usize, y: u32) -> (value: u32)
        requires
            self.wf(),
        ensures
            value == word_at(self@, glyph + y * ((header_of(self@).width + 7) / 8)),
    {
        let bytes_per_line = self.bytes_per_line();
        proof {
            crate::graphics::lemma_product_fits(y, bytes_per_line);
        }
        let len = self.data.len();
        match (glyph as u64).checked_add(y as u64 * bytes_per_line as u64) {
            Some(at) => self.word(at),
            None => 0,
        }
    }
}

} // verus!
