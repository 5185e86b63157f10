use imperium::style::color::{RenderError, RGB};

fn channels(hex: &str) -> Option<(u8, u8, u8)> {
    RGB::hex_to_rgb(hex).ok().map(|c| (c.r(), c.g(), c.b()))
}

#[test]
fn header_color_is_196_167_231() {
    let c = RGB::header_color();
    assert_eq!((c.r(), c.g(), c.b()), (196, 167, 231));
}

#[test]
fn hex_to_rgb_reads_six_digits_of_either_case() {
    assert_eq!(channels("#C4A7E7"), Some((196, 167, 231)));
    assert_eq!(channels("#c4a7e7"), Some((196, 167, 231)));
    assert_eq!(channels("#393552"), Some((0x39, 0x35, 0x52)));
    assert_eq!(channels("#f7df1e"), Some((0xf7, 0xdf, 0x1e)));
}

#[test]
fn hex_to_rgb_skips_every_leading_hash() {
    assert_eq!(channels("C4A7E7"), Some((196, 167, 231)));
    assert_eq!(channels("###C4A7E7"), Some((196, 167, 231)));
}

#[test]
fn hex_to_rgb_reads_short_notation_as_a_number() {
    assert_eq!(channels("#fff"), Some((0, 0x0f, 0xff)));
    assert_eq!(channels("#0"), Some((0, 0, 0)));
    assert_eq!(channels("#00000000000000ff"), Some((0, 0, 0xff)));
}

#[test]
fn hex_to_rgb_ignores_bits_above_the_red_channel() {
    assert_eq!(channels("#12345678"), Some((0x34, 0x56, 0x78)));
    assert_eq!(channels("#ffffffff"), Some((0xff, 0xff, 0xff)));
}

#[test]
fn hex_to_rgb_takes_one_plus_sign() {
    assert_eq!(channels("#+0a0b0c"), Some((0x0a, 0x0b, 0x0c)));
    assert_eq!(channels("#++0a0b0c"), None);
    assert_eq!(channels("#+"), None);
    assert_eq!(channels("#-0a0b0c"), None);
}

#[test]
fn hex_to_rgb_rejects_what_is_no_number() {
    for bad in ["", "#", "##", "#zzzzzz", "#12 345", " #123456", "#123456 ", "#1234_56", "#é"] {
        assert_eq!(RGB::hex_to_rgb(bad), Err(RenderError::MalformedColor), "{:?}", bad);
    }
}

#[test]
fn hex_to_rgb_rejects_more_than_32_bits() {
    assert_eq!(RGB::hex_to_rgb("#100000000"), Err(RenderError::MalformedColor));
    assert_eq!(RGB::hex_to_rgb("#fffffffff"), Err(RenderError::MalformedColor));
}

#[test]
fn hex_to_rgb_agrees_with_the_standard_parser() {
    for text in ["0", "7e8ea8", "+7e8ea8", "FFFFFFFF", "100000000", "", "+", "-1", "12g", "00000000001"] {
        let ours = channels(text);
        let std = u32::from_str_radix(text, 16)
            .ok()
            .map(|n| ((n >> 16) as u8, (n >> 8) as u8, n as u8));
        assert_eq!(ours, std, "{:?}", text);
    }
}
