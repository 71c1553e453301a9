use phone_cells::decimal::{parse_decimal, Decimal};
use phone_cells::fields::{
    dash_check, parse_announce_year, parse_display_size, parse_os, parse_sensors,
    parse_sim_type, parse_weight, parse_year, FieldFormatError, ReleaseStatus,
};

#[test]
fn year_plain() {
    assert_eq!(parse_year("2010"), Some(2010));
}

#[test]
fn year_with_words() {
    assert_eq!(parse_year("2014, September"), Some(2014));
    assert_eq!(parse_year("Available. Released 2013, October"), Some(2013));
}

#[test]
fn year_only_before_comma() {
    assert_eq!(parse_year("2012, 14"), Some(2012));
    assert_eq!(parse_year("12, 2014"), None);
}

#[test]
fn year_too_many_or_few_digits() {
    assert_eq!(parse_year("2010. Released 2011"), None);
    assert_eq!(parse_year("201"), None);
    assert_eq!(parse_year(""), None);
    assert_eq!(parse_year("V1"), None);
}

#[test]
fn year_parsed_twice_is_the_same() {
    let cell = "Announced 2019, March";
    assert_eq!(parse_year(cell), parse_year(cell));
    assert_eq!(parse_weight("135 g"), parse_weight("135 g"));
    assert_eq!(parse_os("Android 9.0, One UI"), parse_os("Android 9.0, One UI"));
}

#[test]
fn release_status_literals() {
    assert_eq!(parse_announce_year("Discontinued"), Some(ReleaseStatus::Discontinued));
    assert_eq!(parse_announce_year("Cancelled"), Some(ReleaseStatus::Cancelled));
    assert_eq!(parse_announce_year("discontinued"), None);
}

#[test]
fn release_status_year() {
    assert_eq!(
        parse_announce_year("Available. Released 2012, March"),
        Some(ReleaseStatus::Year(2012))
    );
    assert_eq!(parse_announce_year("Coming soon"), None);
}

#[test]
fn weight_number_before_unit() {
    assert_eq!(parse_weight("135 g"), Ok(Some(Decimal { micros: 135_000_000 })));
    assert_eq!(
        parse_weight("185.5 g (6.53 oz)"),
        Ok(Some(Decimal { micros: 185_500_000 }))
    );
}

#[test]
fn weight_trims_spaces() {
    assert_eq!(parse_weight("  150   g"), Ok(Some(Decimal { micros: 150_000_000 })));
}

#[test]
fn weight_without_unit_is_absent() {
    assert_eq!(parse_weight("-"), Ok(None));
    assert_eq!(parse_weight("135"), Ok(None));
}

#[test]
fn weight_malformed_is_error() {
    assert_eq!(parse_weight("heavy g"), Err(FieldFormatError::Weight));
    assert_eq!(parse_weight("g"), Err(FieldFormatError::Weight));
}

#[test]
fn display_size_before_inches() {
    assert_eq!(
        parse_display_size("6.1 inches, 93.8 cm2"),
        Ok(Some(Decimal { micros: 6_100_000 }))
    );
    assert_eq!(parse_display_size("-"), Ok(None));
    assert_eq!(parse_display_size("big inches"), Err(FieldFormatError::DisplaySize));
}

#[test]
fn decimal_forms() {
    assert_eq!(parse_decimal("135"), Some(Decimal { micros: 135_000_000 }));
    assert_eq!(parse_decimal(".25"), Some(Decimal { micros: 250_000 }));
    assert_eq!(parse_decimal("12."), Some(Decimal { micros: 12_000_000 }));
    assert_eq!(parse_decimal("0.000001"), Some(Decimal { micros: 1 }));
    assert_eq!(parse_decimal("1.0000001"), None);
    assert_eq!(parse_decimal(""), None);
    assert_eq!(parse_decimal("."), None);
    assert_eq!(parse_decimal("1.2.3"), None);
    assert_eq!(parse_decimal("-5"), None);
    assert_eq!(parse_decimal("99999999999999999999"), None);
}

#[test]
fn sim_type_sentinels() {
    assert_eq!(parse_sim_type("Yes"), None);
    assert_eq!(parse_sim_type("No"), None);
    assert_eq!(parse_sim_type("Nano-SIM"), Some(String::from("Nano-SIM")));
}

#[test]
fn sensors_need_a_letter() {
    assert_eq!(parse_sensors("Accelerometer"), Some(String::from("Accelerometer")));
    assert_eq!(parse_sensors("Überall"), Some(String::from("Überall")));
    assert_eq!(parse_sensors("12, 34"), None);
    assert_eq!(parse_sensors(""), None);
}

#[test]
fn os_before_comma() {
    assert_eq!(
        parse_os("Android 4.0.4, upgradable to 4.1"),
        Some(String::from("Android 4.0.4"))
    );
    assert_eq!(parse_os("Feature phone"), None);
}

#[test]
fn dash_sentinel() {
    assert_eq!(dash_check("-"), None);
    assert_eq!(dash_check("--"), Some(String::from("--")));
    assert_eq!(dash_check("TFT"), Some(String::from("TFT")));
}
