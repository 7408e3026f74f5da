//! Text-based output on the screen.
//!
//! The terminal draws characters with a font, one cell after the other,
//! and keeps a cursor. At the end of a line it goes on in the next; at the
//! end of the screen it clears the screen and starts again at the top.

use vstd::prelude::*;
use vstd::string::StrSliceExecFns;
use crate::graphics::{lemma_offset_unique, lemma_product_fits, Screen};
use crate::psf2::{glyph_start, header_of, word_at, Font};

verus! {

/// The colour of the pixels of a character.
pub const FOREGROUND: u32 = 0x00ff_ffff;

/// The colour of the pixels around a character.
pub const BACKGROUND: u32 = 0x0033_3333;

/// The character that is drawn in place of one that the font lacks.
pub const REPLACEMENT: u32 = 0x3f;

/// Whether the pixel at column `x` is set in a line of a glyph that is
/// `width` pixels wide and whose bytes read `word` as a 32-bit number.
pub open spec fn glyph_bit(word: u32, width: u32, x: u32) -> bool {
    word & (1u32 << ((width - 1 - x) as u32)) != 0
}

/// The colour of the pixel at column `x` of line `y` of the glyph that
/// starts at `glyph` in `font`.
pub open spec fn glyph_pixel(font: Seq<u8>, glyph: int, x: int, y: int) -> u32 {
    let header = header_of(font);
    let line = word_at(font, glyph + y * ((header.width + 7) / 8));
    if glyph_bit(line, header.width, x as u32) {
        FOREGROUND
    } else {
        BACKGROUND
    }
}

/// Whether the cell at (`ox`, `oy`) of a font with glyphs of `width` by
/// `height` pixels covers the pixel at (`x`, `y`), in one of its first
/// `lines` lines or among the first `columns` pixels of the line behind
/// them.
pub open spec fn covered(
    ox: int,
    oy: int,
    width: int,
    height: int,
    lines: int,
    columns: int,
    x: int,
    y: int,
) -> bool {
    &&& ox <= x < ox + width
    &&& oy <= y < oy + height
    &&& (y - oy < lines || (y - oy == lines && x - ox < columns))
}

/// Where the glyph for `character` starts in `font`: the glyph of the
/// character, or that of the question mark where the font lacks the
/// character.
pub open spec fn glyph_for(font: Seq<u8>, character: u32) -> Option<int> {
    match glyph_start(font, character) {
        Some(start) => Some(start),
        None => glyph_start(font, REPLACEMENT),
    }
}

/// Text-based output.
pub struct Terminal {
    screen: Screen,
    font: Font,
    /// The screen width in characters.
    cwidth: u32,
    /// The screen height in characters.
    cheight: u32,
    /// Horizontal cursor position, in characters.
    cx: u32,
    /// Vertical cursor position, in characters.
    cy: u32,
}

impl Terminal {
    /// The screen that the terminal draws on.
    pub closed spec fn screen(&self) -> Screen {
        self.screen
    }

    /// The bytes of the font.
    pub closed spec fn font(&self) -> Seq<u8> {
        self.font@
    }

    /// The screen width in characters.
    pub closed spec fn columns(&self) -> u32 {
        self.cwidth
    }

    /// The screen height in characters.
    pub closed spec fn rows(&self) -> u32 {
        self.cheight
    }

    /// The cursor: its column and its row, in characters.
    pub closed spec fn cursor(&self) -> (u32, u32) {
        (self.cx, self.cy)
    }

    /// Whether a screen can be divided into cells of the font: it has a
    /// header, and its glyphs are at least one pixel wide and high.
    pub open spec fn measures(font: Seq<u8>) -> bool {
        &&& font.len() >= 32
        &&& 1 <= header_of(font).width
        &&& 1 <= header_of(font).height
    }

    /// Whether the font can be drawn with: its glyphs are at least one and
    /// at most 32 pixels wide and at least one pixel high, and it has the
    /// question mark.
    pub open spec fn usable(font: Seq<u8>) -> bool {
        &&& font.len() >= 32
        &&& 1 <= header_of(font).width <= 32
        &&& 1 <= header_of(font).height
        &&& glyph_start(font, REPLACEMENT) is Some
    }

    /// Whether the terminal is well formed: its font divides the screen
    /// into cells, its screen has every pixel, its size in characters is
    /// that of the screen divided by that of a glyph, and its cursor lies
    /// in it.
    pub closed spec fn wf(&self) -> bool {
        &&& Self::measures(self.font@)
        &&& self.screen.wf()
        &&& self.cwidth == self.screen.width() / header_of(self.font@).width
        &&& self.cheight == self.screen.height() / header_of(self.font@).height
        &&& (self.cx <= self.cwidth || self.cx <= 1)
        &&& (self.cy < self.cheight || self.cy == 0)
    }

    /// A terminal on `screen` that draws with `font`, with the cursor at
    /// the top left and nothing drawn: as many columns and rows as cells of
    /// the font lie side by side, and one above the other, on the screen.
    /// There is none for a font whose glyphs have no width or no height.
    pub fn new(screen: Screen, font: Font) -> (terminal: Option<Self>)
        requires
            screen.wf(),
        ensures
            Self::measures(font@) <==> terminal is Some,
            terminal matches Some(t) ==> {
                &&& t.wf()
                &&& t.screen() == screen
                &&& t.font() == font@
                &&& t.cursor() == (0u32, 0u32)
                &&& t.columns() == screen.width() / header_of(font@).width
                &&& t.rows() == screen.height() / header_of(font@).height
            },
    {
        if font.data_len() < 32 {
            return None;
        }
        let header = font.header();
        if header.width == 0 || header.height == 0 {
            return None;
        }
        let cwidth = screen.horizontal_resolution() / header.width;
        let cheight = screen.vertical_resolution() / header.height;
        Some(Self { screen, font, cwidth, cheight, cx: 0, cy: 0 })
    }

    /// Whether characters can be drawn with the terminal's font: its
    /// glyphs are at most 32 pixels wide and it has the question mark.
    pub fn can_draw(&self) -> (ok: bool)
        requires
            self.wf(),
        ensures
            ok == Self::usable(self.font()),
    {
        let header = self.font.header();
        header.width <= 32 && self.font.glyph_ptr(REPLACEMENT).is_some()
    }

    /// The cursor: its column and its row, in characters.
    pub fn position(&self) -> (cursor: (u32, u32))
        ensures
            cursor == self.cursor(),
    {
        (self.cx, self.cy)
    }

    /// The screen that the terminal draws on.
    pub fn display(&self) -> (screen: &Screen)
        ensures
            *screen == self.screen(),
    {
        &self.screen
    }

    /// Moves the cursor to the start of the next line. If we reach the end
    /// of the screen, clear the screen and reset the cursor to the top
    /// left.
    pub fn new_line(&mut self)
        requires
            old(self).wf(),
        ensures
            line_post(*old(self), *final(self)),
    {
        self.cy += 1;
        self.cx = 0;
        if self.cy >= self.cheight {
            self.screen.clear();
            self.cy = 0;
            proof {
                assert forall|x: u32, y: u32|
                    self.screen().has_pixel(x, y) implies #[trigger] self.screen().at(x, y)
                    == 0 by {
                    crate::graphics::lemma_offset_in(
                        self.screen().stride() as int,
                        self.screen().height() as int,
                        x as int,
                        y as int,
                    );
                }
            }
        }
    }
}

/// The pixel at (`x`, `y`) once the glyph that starts at `glyph` in
/// `font` is drawn into the cell at (`ox`, `oy`) of `before`, as far as
/// its first `lines` lines and the first `columns` pixels of the line
/// behind them.
pub open spec fn cell_pixel(
    before: Screen,
    font: Seq<u8>,
    glyph: int,
    ox: int,
    oy: int,
    lines: int,
    columns: int,
    x: u32,
    y: u32,
) -> u32 {
    let header = header_of(font);
    if covered(
        ox,
        oy,
        header.width as int,
        header.height as int,
        lines,
        columns,
        x as int,
        y as int,
    ) {
        glyph_pixel(font, glyph, x - ox, y - oy)
    } else {
        before.at(x, y)
    }
}

/// Whether `after` is `before` with the glyph that starts at `glyph` in
/// `font` drawn into the cell at (`ox`, `oy`), as far as its first `lines`
/// lines and the first `columns` pixels of the line behind them.
pub open spec fn cell_drawn(
    before: Screen,
    after: Screen,
    font: Seq<u8>,
    glyph: int,
    ox: int,
    oy: int,
    lines: int,
    columns: int,
) -> bool {
    &&& after.wf()
    &&& after.same_geometry(&before)
    &&& forall|x: u32, y: u32|
        after.has_pixel(x, y) ==> #[trigger] after.at(x, y) == cell_pixel(
            before,
            font,
            glyph,
            ox,
            oy,
            lines,
            columns,
            x,
            y,
        )
}

impl Terminal {
    /// Draws the glyph that starts at `glyph` in the font into the cell
    /// under the cursor.
    fn draw(&mut self, glyph: usize)
        requires
            old(self).wf(),
            Self::usable(old(self).font()),
        ensures
            final(self).wf(),
            final(self).font() == old(self).font(),
            final(self).columns() == old(self).columns(),
            final(self).rows() == old(self).rows(),
            final(self).cursor() == old(self).cursor(),
            cell_drawn(
                old(self).screen(),
                final(self).screen(),
                old(self).font(),
                glyph as int,
                old(self).cursor().0 * header_of(old(self).font()).width,
                old(self).cursor().1 * header_of(old(self).font()).height,
                header_of(old(self).font()).height as int,
                0,
            ),
    {
        let header = self.font.header();
        proof {
            lemma_product_fits(self.cx, header.width);
            lemma_product_fits(self.cy, header.height);
        }
        // Calculate the pixel offset of the top left corner of the character
        let offset_y = self.cy as u64 * header.height as u64;
        let offset_x = self.cx as u64 * header.width as u64;
        let ghost before = self.screen;
        let ghost font = self.font@;

        // Draw the character to the screen
        let mut y: u32 = 0;
        while y < header.height
            invariant
                y <= header.height,
                self.wf(),
                Self::usable(font),
                header == header_of(font),
                self.font@ == font,
                font == old(self).font(),
                before == old(self).screen(),
                self.cwidth == old(self).cwidth,
                self.cheight == old(self).cheight,
                self.cx == old(self).cx,
                self.cy == old(self).cy,
                offset_x == self.cx * header.width,
                offset_y == self.cy * header.height,
                offset_x <= 0xffff_fffe_0000_0001,
                offset_y <= 0xffff_fffe_0000_0001,
                cell_drawn(
                    before,
                    self.screen,
                    font,
                    glyph as int,
                    offset_x as int,
                    offset_y as int,
                    y as int,
                    0,
                ),
            decreases header.height - y,
        {
            let line = self.font.line(glyph, y);
            let mut x: u32 = 0;
            while x < header.width
                invariant
                    x <= header.width,
                    y < header.height,
                    1 <= header.width <= 32,
                    self.wf(),
                    Self::usable(font),
                    header == header_of(font),
                    self.font@ == font,
                    font == old(self).font(),
                    before == old(self).screen(),
                    self.cwidth == old(self).cwidth,
                    self.cheight == old(self).cheight,
                    self.cx == old(self).cx,
                    self.cy == old(self).cy,
                    offset_x == self.cx * header.width,
                    offset_y == self.cy * header.height,
                    offset_x <= 0xffff_fffe_0000_0001,
                    offset_y <= 0xffff_fffe_0000_0001,
                    line == word_at(font, glyph + y * ((header.width + 7) / 8)),
                    cell_drawn(
                        before,
                        self.screen,
                        font,
                        glyph as int,
                        offset_x as int,
                        offset_y as int,
                        y as int,
                        x as int,
                    ),
                decreases header.width - x,
            {
                let mask: u32 = 1u32 << (header.width - 1 - x);
                let pixel: u32 = if line & mask == 0 {
                    // Background
                    BACKGROUND
                } else {
                    // Foreground
                    FOREGROUND
                };
                let px = offset_x + x as u64;
                let py = offset_y + y as u64;
                let ghost now = self.screen;
                if px <= u32::MAX as u64 && py <= u32::MAX as u64 {
                    self.screen.put_pixel(px as u32, py as u32, pixel);
                }
                proof {
                    lemma_pixel_drawn(
                        before,
                        now,
                        self.screen,
                        font,
                        glyph as int,
                        offset_x as int,
                        offset_y as int,
                        y as int,
                        x as int,
                        pixel,
                    );
                }
                x += 1;
            }
            proof {
                lemma_line_drawn(
                    before,
                    self.screen,
                    font,
                    glyph as int,
                    offset_x as int,
                    offset_y as int,
                    y as int,
                );
            }
            y += 1;
        }
    }
}

/// Drawing the next pixel of a glyph takes the cell one pixel further.
proof fn lemma_pixel_drawn(
    before: Screen,
    now: Screen,
    after: Screen,
    font: Seq<u8>,
    glyph: int,
    ox: int,
    oy: int,
    y: int,
    x: int,
    pixel: u32,
)
    requires
        0 <= ox,
        0 <= oy,
        0 <= x < header_of(font).width,
        0 <= y < header_of(font).height,
        cell_drawn(before, now, font, glyph, ox, oy, y, x),
        pixel == glyph_pixel(font, glyph, x, y),
        after.wf(),
        after.same_geometry(&now),
        ox + x <= u32::MAX && oy + y <= u32::MAX && now.has_pixel((ox + x) as u32, (oy + y) as u32)
            ==> after@ == now@.update(now.offset((ox + x) as u32, (oy + y) as u32), pixel),
        !(ox + x <= u32::MAX && oy + y <= u32::MAX && now.has_pixel(
            (ox + x) as u32,
            (oy + y) as u32,
        )) ==> after@ == now@,
    ensures
        cell_drawn(before, after, font, glyph, ox, oy, y, x + 1),
{
    let header = header_of(font);
    let width = header.width as int;
    let height = header.height as int;
    assert forall|px: u32, py: u32| after.has_pixel(px, py) implies #[trigger] after.at(px, py)
        == cell_pixel(before, font, glyph, ox, oy, y, x + 1, px, py) by {
        assert(now.has_pixel(px, py));
        assert(now.at(px, py) == cell_pixel(before, font, glyph, ox, oy, y, x, px, py));
        crate::graphics::lemma_offset_in(
            now.stride() as int,
            now.height() as int,
            px as int,
            py as int,
        );
        let place = now.offset(px, py);
        assert(0 <= place < now@.len());
        if px == ox + x && py == oy + y {
            assert(after@ == now@.update(place, pixel));
            assert(after.at(px, py) == pixel);
            assert(covered(ox, oy, width, height, y, x + 1, px as int, py as int));
        } else {
            assert(covered(ox, oy, width, height, y, x + 1, px as int, py as int) == covered(
                ox,
                oy,
                width,
                height,
                y,
                x,
                px as int,
                py as int,
            ));
            if ox + x <= u32::MAX && oy + y <= u32::MAX && now.has_pixel(
                (ox + x) as u32,
                (oy + y) as u32,
            ) {
                let target = now.offset((ox + x) as u32, (oy + y) as u32);
                crate::graphics::lemma_offset_in(
                    now.stride() as int,
                    now.height() as int,
                    ox + x,
                    oy + y,
                );
                if place == target {
                    lemma_offset_unique(now.stride() as int, px as int, py as int, ox + x, oy + y);
                }
                assert(after@[place] == now@[place]);
            }
            assert(after.at(px, py) == now.at(px, py));
        }
    }
}

/// A line drawn to its end is the next line not begun.
proof fn lemma_line_drawn(
    before: Screen,
    after: Screen,
    font: Seq<u8>,
    glyph: int,
    ox: int,
    oy: int,
    y: int,
)
    requires
        cell_drawn(before, after, font, glyph, ox, oy, y, header_of(font).width as int),
    ensures
        cell_drawn(before, after, font, glyph, ox, oy, y + 1, 0),
{
    assert forall|px: u32, py: u32| after.has_pixel(px, py) implies #[trigger] after.at(px, py)
        == cell_pixel(before, font, glyph, ox, oy, y + 1, 0, px, py) by {
        assert(after.at(px, py) == cell_pixel(
            before,
            font,
            glyph,
            ox,
            oy,
            y,
            header_of(font).width as int,
            px,
            py,
        ));
    }
}

/// The row below row `row` on a terminal of `rows` rows: the next row, or
/// the first behind the last.
pub open spec fn row_below(row: u32, rows: u32) -> u32 {
    if row + 1 < rows {
        (row + 1) as u32
    } else {
        0
    }
}

/// Whether `after` is `before` but for its cursor and its pixels.
pub open spec fn same_terminal(before: Terminal, after: Terminal) -> bool {
    &&& after.wf()
    &&& after.font() == before.font()
    &&& after.columns() == before.columns()
    &&& after.rows() == before.rows()
    &&& after.screen().same_geometry(&before.screen())
}

/// What a new line does: the cursor goes to the start of the row below;
/// behind the last row the screen is cleared, else it stays as it is.
pub open spec fn line_post(before: Terminal, after: Terminal) -> bool {
    &&& same_terminal(before, after)
    &&& after.cursor() == (0u32, row_below(before.cursor().1, before.rows()))
    &&& forall|x: u32, y: u32|
        after.screen().has_pixel(x, y) ==> #[trigger] after.screen().at(x, y) == if before.cursor().1
            + 1 < before.rows() {
            before.screen().at(x, y)
        } else {
            0
        }
}

/// What putting the character `c` does. A line feed is a new line. Any
/// other character is drawn into the cell under the cursor, in the
/// foreground colour on the background colour, and the cursor moves one
/// cell to the right; where the cursor stands behind the last column, a
/// new line comes first. A character that the font lacks is drawn as a
/// question mark.
pub open spec fn char_post(before: Terminal, c: char, after: Terminal) -> bool {
    if c == '\n' {
        line_post(before, after)
    } else {
        let header = header_of(before.font());
        let wraps = before.cursor().0 >= before.columns();
        let clears = wraps && before.cursor().1 + 1 >= before.rows();
        let column = if wraps {
            0
        } else {
            before.cursor().0
        };
        let row = if wraps {
            row_below(before.cursor().1, before.rows())
        } else {
            before.cursor().1
        };
        let glyph = glyph_for(before.font(), c as u32)->0;
        &&& same_terminal(before, after)
        &&& after.cursor() == ((column + 1) as u32, row)
        &&& forall|x: u32, y: u32|
            after.screen().has_pixel(x, y) ==> #[trigger] after.screen().at(x, y) == if covered(
                column * header.width,
                row * header.height,
                header.width as int,
                header.height as int,
                header.height as int,
                0,
                x as int,
                y as int,
            ) {
                glyph_pixel(
                    before.font(),
                    glyph,
                    x - column * header.width,
                    y - row * header.height,
                )
            } else if clears {
                0
            } else {
                before.screen().at(x, y)
            }
    }
}

/// Whether `states` are the states of a terminal through the characters
/// of `text` put one after the other.
pub open spec fn typed_run(before: Terminal, text: Seq<char>, states: Seq<Terminal>) -> bool {
    &&& states.len() == text.len() + 1
    &&& states[0] == before
    &&& forall|i: int|
        0 <= i < text.len() ==> char_post(#[trigger] states[i], text[i], states[i + 1])
}

/// What putting the string `text` does: what `char_post` says of its
/// characters, one after the other.
pub open spec fn string_post(before: Terminal, text: Seq<char>, after: Terminal) -> bool {
    exists|states: Seq<Terminal>|
        #[trigger] typed_run(before, text, states) && states.last() == after
}

impl Terminal {
    /// Puts a character at the current position. The font has to be one
    /// that can be drawn with: `can_draw` tells.
    pub fn put_char(&mut self, character: char)
        requires
            old(self).wf(),
            Self::usable(old(self).font()),
        ensures
            char_post(*old(self), character, *final(self)),
    {
        // Recognize newline characters and exit early
        if character == '\n' {
            self.new_line();
            return ;
        }
        // Insert a new line if the cursor is to the right of the screen
        if self.cx >= self.cwidth {
            self.new_line();
        }
        let ghost base = *self;

        // Get the glyph for the requested character. If the font doesn't
        // include the character, use the question mark instead.
        let glyph = match self.font.glyph_ptr(character as u32) {
            Some(glyph) => glyph,
            None => match self.font.glyph_ptr(REPLACEMENT) {
                Some(glyph) => glyph,
                None => 0,
            },
        };
        self.draw(glyph);

        let ghost drawn = *self;

        // Move the cursor one step to the right
        self.cx += 1;
        proof {
            let before = *old(self);
            let header = header_of(before.font());
            let wraps = before.cursor().0 >= before.columns();
            let clears = wraps && before.cursor().1 + 1 >= before.rows();
            assert(base.font() == before.font());
            assert(glyph as int == glyph_for(before.font(), character as u32)->0);
            assert(self.screen() == drawn.screen());
            assert(same_terminal(before, *self));
            assert forall|x: u32, y: u32|
                self.screen().has_pixel(x, y) implies #[trigger] self.screen().at(x, y)
                == if covered(
                base.cursor().0 * header.width,
                base.cursor().1 * header.height,
                header.width as int,
                header.height as int,
                header.height as int,
                0,
                x as int,
                y as int,
            ) {
                glyph_pixel(
                    before.font(),
                    glyph as int,
                    x - base.cursor().0 * header.width,
                    y - base.cursor().1 * header.height,
                )
            } else if clears {
                0
            } else {
                before.screen().at(x, y)
            } by {
                assert(drawn.screen().at(x, y) == cell_pixel(
                    base.screen(),
                    base.font(),
                    glyph as int,
                    base.cursor().0 * header.width,
                    base.cursor().1 * header.height,
                    header.height as int,
                    0,
                    x,
                    y,
                ));
                if wraps {
                    assert(base.screen().has_pixel(x, y));
                    assert(base.screen().at(x, y) == if before.cursor().1 + 1 < before.rows() {
                        before.screen().at(x, y)
                    } else {
                        0
                    });
                }
            }
        }
    }

    /// Puts a string starting at the current cursor position. The font has
    /// to be one that can be drawn with: `can_draw` tells.
    pub fn put_string(&mut self, s: &str)
        requires
            old(self).wf(),
            Self::usable(old(self).font()),
        ensures
            final(self).wf(),
            string_post(*old(self), s@, *final(self)),
    {
        let len = s.unicode_len();
        let ghost mut states: Seq<Terminal> = seq![*self];
        let mut i: usize = 0;
        while i < len
            invariant
                i <= len,
                len == s@.len(),
                self.wf(),
                self.font() == old(self).font(),
                Self::usable(old(self).font()),
                states.len() == i + 1,
                states[0] == *old(self),
                states.last() == *self,
                forall|k: int| 0 <= k < i ==> char_post(#[trigger] states[k], s@[k], states[k + 1]),
            decreases len - i,
        {
            let c = s.get_char(i);
            self.put_char(c);
            proof {
                let grown = states.push(*self);
                assert forall|k: int| 0 <= k < i + 1 implies char_post(
                    #[trigger] grown[k],
                    s@[k],
                    grown[k + 1],
                ) by {
                    if k < i {
                        assert(char_post(states[k], s@[k], states[k + 1]));
                    }
                }
                states = grown;
            }
            i += 1;
        }
        proof {
            assert(typed_run(*old(self), s@, states));
        }
    }
}

} // verus!
