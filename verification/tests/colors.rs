use artflow::color::Rgba8;

#[test]
fn hex_six_digits_is_opaque() {
    assert_eq!(Rgba8::from_hex("#FF8000"), Some(Rgba8::new(255, 128, 0, 255)));
    assert_eq!(Rgba8::from_hex("ff8000"), Some(Rgba8::new(255, 128, 0, 255)));
}

#[test]
fn hex_eight_digits_has_alpha() {
    assert_eq!(Rgba8::from_hex("#01020304"), Some(Rgba8::new(1, 2, 3, 4)));
}

#[test]
fn hex_leading_hashes_all_trimmed() {
    assert_eq!(Rgba8::from_hex("##0a0B0c"), Some(Rgba8::new(10, 11, 12, 255)));
}

#[test]
fn hex_needs_two_digits_per_channel() {
    assert_eq!(Rgba8::from_hex("+F0000"), None);
    assert_eq!(Rgba8::from_hex("+1+2+3"), None);
    assert_eq!(Rgba8::from_hex("#ff80é0"), None);
}

#[test]
fn hex_rejects_bad_input() {
    assert_eq!(Rgba8::from_hex(""), None);
    assert_eq!(Rgba8::from_hex("#12345"), None);
    assert_eq!(Rgba8::from_hex("#1234567"), None);
    assert_eq!(Rgba8::from_hex("#GG0000"), None);
    assert_eq!(Rgba8::from_hex("#ééé"), None);
}

#[test]
fn to_hex_is_upper_case_without_alpha() {
    assert_eq!(Rgba8::new(255, 128, 0, 7).to_hex(), "#FF8000");
    assert_eq!(Rgba8::black().to_hex(), "#000000");
}

#[test]
fn hex_round_trip() {
    let c = Rgba8::new(18, 52, 86, 255);
    assert_eq!(Rgba8::from_hex(&c.to_hex()), Some(c));
}
