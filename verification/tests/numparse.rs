use playbackpgnd::numparse::{parse_fixed, parse_hex_u32, parse_u64, NumErr};
use playbackpgnd::playdata::{handle_state, Action, Card};
use playbackpgnd::strutil::str_chars;

fn fixed(s: &str) -> Result<i64, NumErr> {
    parse_fixed(str_chars(s).as_slice())
}

#[test]
fn decimal_fractions_parse_to_millionths() {
    assert_eq!(fixed("10.0"), Ok(10_000_000));
    assert_eq!(fixed("-55.3"), Ok(-55_300_000));
    assert_eq!(fixed("0"), Ok(0));
    assert_eq!(fixed("+2.5"), Ok(2_500_000));
    assert_eq!(fixed(".5"), Ok(500_000));
    assert_eq!(fixed("3."), Ok(3_000_000));
    // digits beyond the sixth fractional place are truncated
    assert_eq!(fixed("1.2345678"), Ok(1_234_567));
}

#[test]
fn malformed_decimals_are_rejected() {
    assert_eq!(fixed(""), Err(NumErr::Malformed));
    assert_eq!(fixed("-"), Err(NumErr::Malformed));
    assert_eq!(fixed("1.2.3"), Err(NumErr::Malformed));
    assert_eq!(fixed("abc"), Err(NumErr::Malformed));
    assert_eq!(fixed("1e3"), Err(NumErr::Malformed));
}

#[test]
fn oversized_decimals_are_rejected() {
    assert_eq!(fixed("9000000000001"), Err(NumErr::TooLarge));
    assert_eq!(fixed("9000000000000"), Ok(9_000_000_000_000_000_000));
}

#[test]
fn unsigned_integers_parse() {
    let v = str_chars("100");
    assert_eq!(parse_u64(v.as_slice()), Ok(100));
    let empty = str_chars("");
    assert_eq!(parse_u64(empty.as_slice()), Err(NumErr::Malformed));
    let big = str_chars("18446744073709551616");
    assert_eq!(parse_u64(big.as_slice()), Err(NumErr::TooLarge));
    let max = str_chars("18446744073709551615");
    assert_eq!(parse_u64(max.as_slice()), Ok(u64::MAX));
}

#[test]
fn hexadecimal_masks_parse() {
    assert_eq!(parse_hex_u32(str_chars("0").as_slice()), Ok(0));
    assert_eq!(parse_hex_u32(str_chars("1f").as_slice()), Ok(0x1f));
    assert_eq!(parse_hex_u32(str_chars("FFFFFFFF").as_slice()), Ok(u32::MAX));
    assert_eq!(parse_hex_u32(str_chars("100000000").as_slice()), Err(NumErr::TooLarge));
    assert_eq!(parse_hex_u32(str_chars("g").as_slice()), Err(NumErr::Malformed));
    assert_eq!(parse_hex_u32(str_chars("").as_slice()), Err(NumErr::Malformed));
}

#[test]
fn zero_mask_decodes_to_no_action_no_card() {
    assert_eq!(handle_state(0), (Action::NoAction, Card::NoCard));
}

#[test]
fn action_bits_decode_without_a_card() {
    assert_eq!(handle_state(0x2), (Action::Kick, Card::NoCard));
    assert_eq!(handle_state(0x8), (Action::Catch, Card::NoCard));
    assert_eq!(handle_state(0x10), (Action::Tackle, Card::NoCard));
}

#[test]
fn card_bits_decode() {
    assert_eq!(handle_state(0x20), (Action::NoAction, Card::Yellow));
    assert_eq!(handle_state(0x42), (Action::Kick, Card::Red));
}
