use rk_boot::graphics::Screen;
use rk_boot::psf2::{Font, Header, PSF2_MAGIC};
use rk_boot::terminal::{Terminal, BACKGROUND, FOREGROUND};

/// A font with 128 glyphs of `width` by `height` pixels. The glyph of a
/// character has the bits of the character's code in every line.
fn screen_font(width: u32, height: u32) -> Vec<u8> {
    let bytes_per_line = (width + 7) / 8;
    let charsize = bytes_per_line * height;
    let mut data = Vec::new();
    for field in [0x864a_b572u32, 0, 32, 0, 128, charsize, height, width] {
        data.extend_from_slice(&field.to_le_bytes());
    }
    for character in 0..128u32 {
        for _ in 0..height {
            data.push(character as u8);
            for _ in 1..bytes_per_line {
                data.push(0);
            }
        }
    }
    data
}

fn screen_terminal(columns: u32, rows: u32) -> Terminal {
    let screen = Screen::new(0xffff_8000_8000_0000, columns * 8, rows * 2, columns * 8 + 3);
    Terminal::new(screen, Font::read(screen_font(8, 2)).unwrap()).unwrap()
}

#[test]
fn screen_geometry() {
    let screen = Screen::new(0x8000_0000, 1024, 768, 1280);
    assert_eq!(screen.fb_base(), 0x8000_0000);
    assert_eq!(screen.horizontal_resolution(), 1024);
    assert_eq!(screen.vertical_resolution(), 768);
    assert_eq!(screen.pixels_per_scan_line(), 1280);
    assert_eq!(screen.pixel(0, 0), Some(0));
    assert_eq!(screen.pixel(1279, 767), Some(0));
    assert_eq!(screen.pixel(1280, 0), None);
    assert_eq!(screen.pixel(0, 768), None);
}

#[test]
fn screen_put_pixel_and_clear() {
    let mut screen = Screen::new(0, 4, 3, 5);
    screen.put_pixel(1, 2, 0xff_0000);
    screen.put_pixel(4, 0, 0x00_ff00);
    assert_eq!(screen.pixel(1, 2), Some(0xff_0000));
    assert_eq!(screen.pixel(4, 0), Some(0x00_ff00));
    assert_eq!(screen.pixel(0, 1), Some(0));
    assert_eq!(screen.pixel(1, 1), Some(0));
    // Outside the frame buffer: ignored.
    screen.put_pixel(5, 0, 7);
    screen.put_pixel(0, 3, 7);
    assert_eq!(screen.pixel(0, 1), Some(0));
    screen.clear();
    assert_eq!(screen.pixel(1, 2), Some(0));
    assert_eq!(screen.pixel(4, 0), Some(0));
}

#[test]
fn font_header_and_glyphs() {
    assert_eq!(PSF2_MAGIC, 0x72b5_4a86);
    assert!(Font::read(vec![0; 31]).is_none());
    let font = Font::read(screen_font(12, 3)).unwrap();
    assert_eq!(
        font.header(),
        Header {
            magic: 0x864a_b572,
            version: 0,
            headersize: 32,
            flags: 0,
            length: 128,
            charsize: 6,
            height: 3,
            width: 12,
        }
    );
    assert_eq!(font.bytes_per_line(), 2);
    assert_eq!(font.glyph_ptr(0), Some(32));
    assert_eq!(font.glyph_ptr(0x41), Some(32 + 0x41 * 6));
    assert_eq!(font.glyph_ptr(127), Some(32 + 127 * 6));
    assert_eq!(font.glyph_ptr(128), None);
    // A line is read as four bytes, whatever its width.
    assert_eq!(font.line(32 + 0x41 * 6, 0), 0x0041_0041);
    assert_eq!(font.line(32 + 0x41 * 6, 2), 0x0042_0041);
    // Behind the end of the font the bytes read as 0.
    assert_eq!(font.line(32 + 127 * 6, 2), 0x7f);
    assert_eq!(font.word(font.data_len() as u64), 0);
    assert_eq!(font.word(u64::MAX), 0);
}

#[test]
fn font_bytes_per_line_rounds_up() {
    for (width, bytes) in [(1u32, 1u32), (8, 1), (9, 2), (16, 2), (17, 3), (32, 4)] {
        assert_eq!(Font::read(screen_font(width, 1)).unwrap().bytes_per_line(), bytes);
    }
}

#[test]
fn font_with_missing_glyph_data() {
    let mut data = screen_font(8, 2);
    data.truncate(32 + 2 * 100 + 1);
    let font = Font::read(data).unwrap();
    assert_eq!(font.glyph_ptr(99), Some(32 + 198));
    assert_eq!(font.glyph_ptr(100), None);
}

#[test]
fn terminal_size_in_characters() {
    let terminal = screen_terminal(4, 3);
    assert_eq!(terminal.position(), (0, 0));
    let screen = Screen::new(0, 1024, 768, 1024);
    let terminal = Terminal::new(screen, Font::read(screen_font(8, 16)).unwrap()).unwrap();
    assert_eq!(terminal.display().horizontal_resolution(), 1024);
    assert_eq!(terminal.position(), (0, 0));
}

#[test]
fn terminal_needs_glyphs_with_a_size() {
    for (width, height) in [(0u32, 16u32), (8, 0), (0, 0)] {
        let screen = Screen::new(0, 64, 64, 64);
        assert!(Terminal::new(screen, Font::read(screen_font(width, height)).unwrap()).is_none());
    }
}

#[test]
fn terminal_is_built_for_a_font_that_cannot_be_drawn_with() {
    // Glyphs wider than 32 pixels.
    let screen = Screen::new(0, 660, 64, 660);
    let terminal = Terminal::new(screen, Font::read(screen_font(33, 16)).unwrap()).unwrap();
    assert_eq!(terminal.position(), (0, 0));
    assert_eq!(terminal.display().horizontal_resolution(), 660);
    assert!(!terminal.can_draw());
    // A font without the question mark.
    let mut data = screen_font(8, 2);
    data[16] = 63;
    let screen = Screen::new(0, 16, 4, 16);
    let mut terminal = Terminal::new(screen, Font::read(data).unwrap()).unwrap();
    assert!(!terminal.can_draw());
    // The size in characters is there all the same: two lines fill it.
    terminal.new_line();
    assert_eq!(terminal.position(), (0, 1));
    terminal.new_line();
    assert_eq!(terminal.position(), (0, 0));
    assert!(screen_terminal(4, 3).can_draw());
}

#[test]
fn terminal_draws_a_character() {
    let mut terminal = screen_terminal(4, 3);
    // 'A' is 0x41: 0100 0001.
    terminal.put_char('A');
    assert_eq!(terminal.position(), (1, 0));
    let expected = [false, true, false, false, false, false, false, true];
    for y in 0..2 {
        for (x, set) in expected.iter().enumerate() {
            let colour = if *set { FOREGROUND } else { BACKGROUND };
            assert_eq!(terminal.display().pixel(x as u32, y), Some(colour));
        }
    }
    // The next cell and the next row are untouched.
    assert_eq!(terminal.display().pixel(8, 0), Some(0));
    assert_eq!(terminal.display().pixel(0, 2), Some(0));
    terminal.put_char('B');
    assert_eq!(terminal.position(), (2, 0));
    assert_eq!(terminal.display().pixel(8 + 6, 1), Some(FOREGROUND));
    assert_eq!(terminal.display().pixel(8 + 7, 1), Some(BACKGROUND));
    assert_eq!(terminal.display().pixel(1, 0), Some(FOREGROUND));
}

#[test]
fn terminal_draws_a_question_mark_for_a_missing_glyph() {
    let mut terminal = screen_terminal(4, 3);
    terminal.put_char('\u{20ac}');
    // '?' is 0x3f: 0011 1111.
    assert_eq!(terminal.display().pixel(0, 0), Some(BACKGROUND));
    assert_eq!(terminal.display().pixel(1, 0), Some(BACKGROUND));
    assert_eq!(terminal.display().pixel(2, 0), Some(FOREGROUND));
    assert_eq!(terminal.display().pixel(7, 1), Some(FOREGROUND));
    assert_eq!(terminal.position(), (1, 0));
}

#[test]
fn terminal_new_line_and_wrap() {
    let mut terminal = screen_terminal(2, 3);
    terminal.put_string("ab");
    assert_eq!(terminal.position(), (2, 0));
    // The line is full: the next character goes to the next row.
    terminal.put_char('c');
    assert_eq!(terminal.position(), (1, 1));
    assert_eq!(terminal.display().pixel(1, 2), Some(FOREGROUND));
    terminal.put_char('\n');
    assert_eq!(terminal.position(), (0, 2));
    terminal.new_line();
    // Behind the last row the screen is cleared.
    assert_eq!(terminal.position(), (0, 0));
    assert_eq!(terminal.display().pixel(1, 0), Some(0));
    assert_eq!(terminal.display().pixel(1, 2), Some(0));
}

#[test]
fn terminal_put_string_with_line_feeds() {
    let mut terminal = screen_terminal(8, 4);
    terminal.put_string("0\n1\n");
    assert_eq!(terminal.position(), (0, 2));
    // '0' is 0x30 and '1' is 0x31: they differ in the last pixel.
    assert_eq!(terminal.display().pixel(7, 0), Some(BACKGROUND));
    assert_eq!(terminal.display().pixel(7, 2), Some(FOREGROUND));
    assert_eq!(terminal.display().pixel(2, 0), Some(FOREGROUND));
    terminal.put_string("");
    assert_eq!(terminal.position(), (0, 2));
}

#[test]
fn terminal_on_a_screen_smaller_than_a_character() {
    let screen = Screen::new(0, 5, 1, 5);
    let mut terminal = Terminal::new(screen, Font::read(screen_font(8, 2)).unwrap()).unwrap();
    terminal.put_char('A');
    // What fits is drawn; the screen was cleared for the new line first.
    assert_eq!(terminal.display().pixel(0, 0), Some(BACKGROUND));
    assert_eq!(terminal.display().pixel(1, 0), Some(FOREGROUND));
    assert_eq!(terminal.position(), (1, 0));
    terminal.put_char('A');
    assert_eq!(terminal.position(), (1, 0));
}
