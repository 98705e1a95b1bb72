use dropstf::steam_id::{SteamId, SteamIdError};

const BASE: u64 = 0x0110_0001_0000_0000;

#[test]
fn parses_bracketed_form() {
    let id = SteamId::parse("[U:1:64229260]").unwrap();
    assert_eq!(id.to_u64(), BASE + 64229260);
}

#[test]
fn parses_legacy_form() {
    let id = SteamId::parse("STEAM_0:1:32114630").unwrap();
    assert_eq!(id.to_u64(), BASE + 2 * 32114630 + 1);
}

#[test]
fn legacy_universe_zero_means_public() {
    let a = SteamId::parse("STEAM_0:0:1").unwrap();
    let b = SteamId::parse("STEAM_1:0:1").unwrap();
    assert_eq!(a, b);
}

#[test]
fn parses_numeric_form() {
    let id = SteamId::parse("76561198024494988").unwrap();
    assert_eq!(id.to_u64(), 76561198024494988);
}

#[test]
fn canonical_form_writes_bracketed() {
    let id = SteamId::parse("[U:1:64229260]").unwrap();
    assert_eq!(id.steam3(), "[U:1:64229260]");
}

#[test]
fn legacy_form_writes_steam2() {
    let id = SteamId::parse("[U:1:64229260]").unwrap();
    assert_eq!(id.steam2(), "STEAM_0:0:32114630");
    let odd = SteamId::parse("[U:1:64229261]").unwrap();
    assert_eq!(odd.steam2(), "STEAM_0:1:32114630");
}

#[test]
fn parse_canonical_round_trips_all_three_notations() {
    for text in ["[U:1:64229260]", "STEAM_0:1:32114630", "76561198024494988"] {
        let first = SteamId::parse(text).unwrap();
        let again = SteamId::parse(&first.steam3()).unwrap();
        assert_eq!(first, again);
    }
}

#[test]
fn parse_legacy_round_trips() {
    let id = SteamId::parse("STEAM_0:1:32114630").unwrap();
    let again = SteamId::parse(&id.steam2()).unwrap();
    assert_eq!(id, again);
}

#[test]
fn numeric_round_trips_exactly() {
    for n in [0u64, 1, 76561198024494988, u64::MAX] {
        assert_eq!(SteamId::new(n).to_u64(), n);
        assert_eq!(u64::from(SteamId::from(n)), n);
    }
    let id = SteamId::parse("76561198024494988").unwrap();
    assert_eq!(SteamId::new(id.to_u64()), id);
}

#[test]
fn from_str_parses_every_notation() {
    let a: SteamId = "[U:1:64229260]".parse().unwrap();
    let b: SteamId = "STEAM_0:0:32114630".parse().unwrap();
    assert_eq!(a, b);
}

#[test]
fn from_steam3_accepts_only_bracketed() {
    assert!(SteamId::from_steam3("[U:1:64229260]").is_ok());
    assert_eq!(
        SteamId::from_steam3("76561198024494988"),
        Err(SteamIdError::InvalidFormat)
    );
}

#[test]
fn account_above_32_bits_is_out_of_range() {
    assert_eq!(
        SteamId::parse("[U:1:4294967296]"),
        Err(SteamIdError::OutOfRange)
    );
    assert_eq!(
        SteamId::parse("STEAM_0:0:2147483648"),
        Err(SteamIdError::OutOfRange)
    );
}

#[test]
fn universe_above_8_bits_is_out_of_range() {
    assert_eq!(SteamId::parse("[U:256:1]"), Err(SteamIdError::OutOfRange));
    assert!(SteamId::parse("[U:255:1]").is_ok());
}

#[test]
fn numeric_above_64_bits_is_out_of_range() {
    assert_eq!(
        SteamId::parse("99999999999999999999999"),
        Err(SteamIdError::OutOfRange)
    );
}

#[test]
fn malformed_text_is_invalid_format() {
    for text in [
        "",
        "foo",
        "[U:1:]",
        "[U::1]",
        "[U:1:2",
        "U:1:2]",
        "STEAM_0:2:123",
        "STEAM_0:0:",
        "STEAM_x:0:1",
        "[U:1:12a3]",
        "-123",
    ] {
        assert_eq!(
            SteamId::parse(text),
            Err(SteamIdError::InvalidFormat),
            "text: {text:?}"
        );
    }
}

#[test]
fn numeric_boundary_of_64_bits() {
    assert_eq!(
        SteamId::parse("18446744073709551615").unwrap().to_u64(),
        u64::MAX
    );
    assert_eq!(
        SteamId::parse("18446744073709551616"),
        Err(SteamIdError::OutOfRange)
    );
}

#[test]
fn leading_zeros_read_as_the_same_value() {
    let a = SteamId::parse("[U:1:007]").unwrap();
    let b = SteamId::parse("[U:1:7]").unwrap();
    assert_eq!(a, b);
}

#[test]
fn default_is_zero() {
    assert_eq!(SteamId::default().to_u64(), 0);
}

#[test]
fn equal_canonical_values_are_one_player() {
    let a = SteamId::parse("[U:1:7]").unwrap();
    let b = SteamId::parse("STEAM_0:1:3").unwrap();
    assert_eq!(a, b);
    assert_eq!(a.to_u64(), BASE + 7);
}
