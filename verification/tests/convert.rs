use unitconv::{ConvError, Converter, Rat};

#[test]
fn identity_same_unit() {
    let c = Converter::new();
    assert_eq!(c.convert("100m".to_string()).unwrap(), "100 m");
}

#[test]
fn identity_with_prefix_token() {
    // The destination defaults to the extracted source token, so a prefixed
    // token converts to itself.
    let c = Converter::new();
    assert_eq!(c.convert("10km".to_string()).unwrap(), "10 km");
}

#[test]
fn identity_zero() {
    let c = Converter::new();
    assert_eq!(c.convert("0C".to_string()).unwrap(), "0 C");
}

#[test]
fn prefix_kilometers_to_meters() {
    let c = Converter::new();
    assert_eq!(c.convert("5km to m".to_string()).unwrap(), "5000 m");
}

#[test]
fn prefix_equals_scaled_plain_unit() {
    let c = Converter::new();
    let via_prefix = c.convert("5km to m".to_string()).unwrap();
    let plain = c.convert("5000m to m".to_string()).unwrap();
    assert_eq!(via_prefix, plain);
}

#[test]
fn round_trip_kilometers() {
    let c = Converter::new();
    assert_eq!(c.convert("5km to m".to_string()).unwrap(), "5000 m");
    assert_eq!(c.convert("5000m to km".to_string()).unwrap(), "5 km");
}

#[test]
fn round_trip_feet() {
    let c = Converter::new();
    assert_eq!(c.convert("25m to foot".to_string()).unwrap(), "82.02 foot");
}

#[test]
fn micro_prefix_destination() {
    // "μ" is not an ASCII letter, so it can never be part of an extracted
    // source unit; the destination token is used verbatim and reaches it.
    let c = Converter::new();
    assert_eq!(c.convert("1m to μm".to_string()).unwrap(), "1000000 μm");
}

#[test]
fn micro_prefix_not_extracted_from_source() {
    // In a source token only the letter run counts: "1000000μm" reads as
    // meters, the micro sign is skipped.
    let c = Converter::new();
    assert_eq!(c.convert("1000000μm to m".to_string()).unwrap(), "1000000 m");
}

#[test]
fn giga_prefix() {
    let c = Converter::new();
    assert_eq!(c.convert("10Gm to m".to_string()).unwrap(), "10000000000 m");
}

#[test]
fn fixed_point_celsius_to_fahrenheit() {
    let c = Converter::new();
    assert_eq!(c.convert("0C to F".to_string()).unwrap(), "32 F");
}

#[test]
fn fixed_point_fahrenheit_to_celsius() {
    let c = Converter::new();
    assert_eq!(c.convert("212F to C".to_string()).unwrap(), "100 C");
}

#[test]
fn fixed_point_celsius_to_kelvin() {
    let c = Converter::new();
    assert_eq!(c.convert("0C to K".to_string()).unwrap(), "273.15 K");
}

#[test]
fn kelvin_to_celsius_negative() {
    let c = Converter::new();
    assert_eq!(c.convert("0K to C".to_string()).unwrap(), "-273.15 C");
}

#[test]
fn fahrenheit_zero_to_celsius() {
    let c = Converter::new();
    assert_eq!(c.convert("0F to C".to_string()).unwrap(), "-17.78 C");
}

#[test]
fn trim_whole_number() {
    let c = Converter::new();
    assert_eq!(c.convert("12m".to_string()).unwrap(), "12 m");
}

#[test]
fn trim_one_decimal() {
    // 12.5 exactly: 12500 millimeters.
    let c = Converter::new();
    assert_eq!(c.convert("12500mm to m".to_string()).unwrap(), "12.5 m");
}

#[test]
fn round_two_decimals_half_away() {
    // 12.345 exactly rounds up to 12.35.
    let c = Converter::new();
    assert_eq!(c.convert("12345mm to m".to_string()).unwrap(), "12.35 m");
}

#[test]
fn small_fraction_rendering() {
    let c = Converter::new();
    assert_eq!(c.convert("1inch to m".to_string()).unwrap(), "0.03 m");
}

#[test]
fn error_empty_input() {
    let c = Converter::new();
    assert!(matches!(c.convert("".to_string()), Err(ConvError::InvalidFormat)));
}

#[test]
fn error_too_many_tokens() {
    let c = Converter::new();
    assert!(matches!(
        c.convert("10m to m now".to_string()),
        Err(ConvError::InvalidFormat)
    ));
}

#[test]
fn error_no_digits() {
    let c = Converter::new();
    assert!(matches!(c.convert("abc".to_string()), Err(ConvError::InvalidNumber)));
}

#[test]
fn error_no_letters() {
    let c = Converter::new();
    assert!(matches!(c.convert("123".to_string()), Err(ConvError::InvalidFormat)));
}

#[test]
fn error_unknown_unit() {
    let c = Converter::new();
    match c.convert("10xyz".to_string()) {
        Err(ConvError::InvalidUnit(t)) => assert_eq!(t, "xyz"),
        other => panic!("expected InvalidUnit, got {:?}", other),
    }
}

#[test]
fn error_unknown_destination_unit() {
    let c = Converter::new();
    match c.convert("10m to zorp".to_string()) {
        Err(ConvError::InvalidUnit(t)) => assert_eq!(t, "zorp"),
        other => panic!("expected InvalidUnit, got {:?}", other),
    }
}

#[test]
fn error_value_too_large() {
    let c = Converter::new();
    assert!(matches!(
        c.convert("99999999999999999999m".to_string()),
        Err(ConvError::Unrepresentable)
    ));
}

#[test]
fn middle_token_is_ignored() {
    let c = Converter::new();
    assert_eq!(c.convert("10m into m".to_string()).unwrap(), "10 m");
}

#[test]
fn surrounding_whitespace() {
    let c = Converter::new();
    assert_eq!(c.convert("  10m  ".to_string()).unwrap(), "10 m");
}

#[test]
fn unit_split_from_digits_is_rejected() {
    // Both the digit run and the letter run must sit in the first token.
    let c = Converter::new();
    assert!(matches!(
        c.convert("10 m".to_string()),
        Err(ConvError::InvalidFormat)
    ));
}

#[test]
fn digits_and_letters_mixed_in_first_token() {
    // Only the first digit run and the first letter run matter.
    let c = Converter::new();
    assert_eq!(c.convert("m10".to_string()).unwrap(), "10 m");
}

#[test]
fn mutation_new_unit_as_source_and_destination() {
    let mut c = Converter::new();
    c.add_conversion("stone".to_string(), Rat::new(635029, 100000), Rat::new(0, 1));
    assert_eq!(c.convert("2stone to m".to_string()).unwrap(), "12.7 m");
    assert_eq!(c.convert("1m to stone".to_string()).unwrap(), "0.16 stone");
}

#[test]
fn mutation_overrides_existing_unit() {
    let mut c = Converter::new();
    c.add_conversion("yard".to_string(), Rat::new(1, 1), Rat::new(0, 1));
    assert_eq!(c.convert("3yard to m".to_string()).unwrap(), "3 m");
}

#[test]
fn mutation_zero_factor_destination_is_unrepresentable() {
    let mut c = Converter::new();
    c.add_conversion("void".to_string(), Rat::new(0, 1), Rat::new(0, 1));
    assert!(matches!(
        c.convert("1m to void".to_string()),
        Err(ConvError::Unrepresentable)
    ));
}

#[test]
fn exact_match_beats_prefix() {
    // "m" is both the meter symbol and the milli prefix; the registered
    // symbol wins, so a meter stays a meter.
    let c = Converter::new();
    assert_eq!(c.convert("7m to m".to_string()).unwrap(), "7 m");
}

#[test]
fn cross_family_is_not_rejected() {
    // No family check exists: meters convert to Celsius numerically.
    let c = Converter::new();
    assert_eq!(c.convert("10m to C".to_string()).unwrap(), "10 C");
}

#[test]
fn mile_to_meters() {
    let c = Converter::new();
    assert_eq!(c.convert("2mile to m".to_string()).unwrap(), "3218.68 m");
}
