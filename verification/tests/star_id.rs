use universe::star_id::{parse_star_id, star_display_id, star_location_id};

#[test]
fn round_trip_standard() {
    for (x, y) in [
        (1000, 1000),
        (11_000, 1000),
        (0, 0),
        (-1000, 1000),
        (-11_000, -1000),
    ] {
        let id = star_display_id(x, y);
        assert_eq!(parse_star_id(&id), Some((x, y)), "id={id}");
    }
}

#[test]
fn round_trip_fallback() {
    let x = 500_000;
    let y = -300_000;
    let id = star_display_id(x, y);
    assert!(id.starts_with('!'));
    assert_eq!(parse_star_id(&id), Some((x, y)));
}

#[test]
fn examples_from_spec() {
    assert_eq!(star_display_id(1000, 1000), "AA-1000-1000");
    assert_eq!(star_display_id(11_000, 1000), "BA-1000-1000");
}

#[test]
fn star_location_id_packed() {
    assert_eq!(star_location_id(0, 0), 0u128);
    assert_eq!(
        star_location_id(-1, 2),
        u128::from(-1i32 as u32) | (u128::from(2u32) << 32)
    );
}

#[test]
fn display_uses_lowercase_letters_for_negative_blocks() {
    assert_eq!(star_display_id(-1, 0), "aA-9999-0");
    assert_eq!(star_display_id(-260_000, 259_999), "zZ-0-9999");
}

#[test]
fn display_falls_back_outside_letter_range() {
    assert_eq!(star_display_id(260_000, 0), "!260000,0");
    assert_eq!(star_display_id(0, -260_001), "!0,-260001");
    assert_eq!(star_display_id(i32::MIN, i32::MAX), "!-2147483648,2147483647");
}

#[test]
fn round_trip_extremes() {
    for (x, y) in [
        (i32::MIN, i32::MIN),
        (i32::MAX, 0),
        (-260_000, -260_000),
        (259_999, 259_999),
        (-260_001, 3),
        (9_999, -1),
    ] {
        let id = star_display_id(x, y);
        assert_eq!(parse_star_id(&id), Some((x, y)), "id={id}");
    }
}

#[test]
fn parse_ignores_surrounding_whitespace() {
    assert_eq!(parse_star_id("  AA-1000-1000\t\n"), Some((1000, 1000)));
    assert_eq!(parse_star_id("\u{3000}! 12 , -7 \u{a0}"), Some((12, -7)));
}

#[test]
fn parse_accepts_what_integer_parsing_accepts() {
    assert_eq!(parse_star_id("AA-+5-0007"), Some((5, 7)));
    assert_eq!(parse_star_id("!+3,-0"), Some((3, 0)));
}

#[test]
fn parse_rejects_malformed_labels() {
    assert_eq!(parse_star_id(""), None);
    assert_eq!(parse_star_id("AA"), None);
    assert_eq!(parse_star_id("AA1000-1000"), None);
    assert_eq!(parse_star_id("AA-10000-0"), None);
    assert_eq!(parse_star_id("AA--5-0"), None);
    assert_eq!(parse_star_id("A1-5-5"), None);
    assert_eq!(parse_star_id("AA-5"), None);
    assert_eq!(parse_star_id("AA-5-"), None);
    assert_eq!(parse_star_id("!5"), None);
    assert_eq!(parse_star_id("!5,"), None);
    assert_eq!(parse_star_id("!2147483648,0"), None);
    assert_eq!(parse_star_id("AA-4294967296-0"), None);
}

#[test]
fn parse_reads_block_letters() {
    assert_eq!(parse_star_id("Za-1-2"), Some((250_001, -9_998)));
    assert_eq!(parse_star_id("bB-0-0"), Some((-20_000, 10_000)));
}
