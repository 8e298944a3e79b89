use glitch_bridge::numeric::be_bytes_to_u128;
use glitch_bridge::numeric::be_word_to_dec_string;
use glitch_bridge::numeric::hex_0x_string;
use glitch_bridge::numeric::parse_u128;
use glitch_bridge::numeric::u128_to_dec_string;

#[test]
fn renders_zero() {
    assert_eq!(u128_to_dec_string(0), "0");
}

#[test]
fn renders_decimal() {
    assert_eq!(u128_to_dec_string(1000), "1000");
    assert_eq!(u128_to_dec_string(987654321), "987654321");
}

#[test]
fn renders_max() {
    assert_eq!(
        u128_to_dec_string(u128::MAX),
        "340282366920938463463374607431768211455"
    );
}

#[test]
fn parses_what_it_renders() {
    for v in [0u128, 1, 9, 10, 999, 1_000_000_007, u128::MAX] {
        assert_eq!(parse_u128(&u128_to_dec_string(v)), Some(v));
    }
}

#[test]
fn parse_accepts_leading_plus() {
    assert_eq!(parse_u128("+123"), Some(123));
}

#[test]
fn parse_rejects_junk() {
    assert_eq!(parse_u128(""), None);
    assert_eq!(parse_u128("+"), None);
    assert_eq!(parse_u128("12a"), None);
    assert_eq!(parse_u128("-5"), None);
    assert_eq!(parse_u128(" 5"), None);
}

#[test]
fn parse_matches_std() {
    for s in ["0", "007", "+42", "", "x", "340282366920938463463374607431768211455"] {
        assert_eq!(parse_u128(s), s.parse::<u128>().ok());
    }
}

#[test]
fn parse_rejects_overflow() {
    assert_eq!(parse_u128("340282366920938463463374607431768211456"), None);
}

#[test]
fn hex_renders_lowercase_with_prefix() {
    assert_eq!(hex_0x_string(&[0xde, 0xad, 0xbe, 0xef]), "0xdeadbeef");
    assert_eq!(hex_0x_string(&[0x00, 0x0f]), "0x000f");
    assert_eq!(hex_0x_string(&[]), "0x");
}

#[test]
fn big_endian_words_read_back() {
    assert_eq!(be_bytes_to_u128(&[]), Some(0));
    assert_eq!(be_bytes_to_u128(&[0x01, 0x00]), Some(256));
    let mut word = [0u8; 32];
    word[30] = 0x03;
    word[31] = 0xe8;
    assert_eq!(be_bytes_to_u128(&word), Some(1000));
}

#[test]
fn big_endian_overflow_is_reported() {
    let mut word = [0u8; 32];
    word[15] = 1;
    assert_eq!(be_bytes_to_u128(&word), None);
    assert_eq!(be_bytes_to_u128(&[0xff; 16]), Some(u128::MAX));
}

#[test]
fn wide_words_render_their_exact_decimal() {
    assert_eq!(be_word_to_dec_string(&[]), "0");
    assert_eq!(be_word_to_dec_string(&[0, 0, 0]), "0");
    assert_eq!(be_word_to_dec_string(&[0x03, 0xe8]), "1000");
    assert_eq!(
        be_word_to_dec_string(&[0xff; 16]),
        "340282366920938463463374607431768211455"
    );
    let mut over = vec![1u8];
    over.extend_from_slice(&[0u8; 16]);
    assert_eq!(
        be_word_to_dec_string(&over),
        "340282366920938463463374607431768211456"
    );
}
