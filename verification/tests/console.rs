use rk_boot::console::Writer;
use rk_boot::uefi::Char16;

fn units(text: &[u16]) -> Vec<Char16> {
    text.iter().map(|unit| Char16(*unit)).collect()
}

#[test]
fn writer_sends_characters_in_order() {
    let mut writer = Writer::new();
    writer.write_str("Hi!");
    assert_eq!(writer.take(), units(&[0x48, 0x69, 0x21, 0]));
}

#[test]
fn writer_follows_line_feed_with_carriage_return() {
    let mut writer = Writer::new();
    writer.write_str("a\nb\n");
    assert_eq!(writer.take(), units(&[0x61, 0x0a, 0x0d, 0x62, 0x0a, 0x0d, 0]));
}

#[test]
fn writer_collects_over_several_strings() {
    let mut writer = Writer::new();
    writer.write_str("UEFI v");
    writer.write_str("2");
    writer.write_str("");
    assert_eq!(writer.take(), units(&[0x55, 0x45, 0x46, 0x49, 0x20, 0x76, 0x32, 0]));
    // Taken, the writer starts afresh.
    assert_eq!(writer.take(), units(&[0]));
}

#[test]
fn writer_keeps_the_low_16_bits() {
    let mut writer = Writer::new();
    writer.write_str("\u{e9}\u{20ac}\u{1f427}");
    assert_eq!(writer.take(), units(&[0xe9, 0x20ac, 0xf427, 0]));
}
