use stars::data::{luminosity_class, lum_class_group, spectral_class, spectral_parts, Src};
use stars::text::{decimal, trim};

#[test]
fn label_names_each_source() {
    assert_eq!(Src::Measured.label(), "measured");
    assert_eq!(Src::Spectral.label(), "from spectral type");
    assert_eq!(Src::Color.label(), "from color index");
    assert_eq!(Src::Radius.label(), "from radius + Teff");
    assert_eq!(Src::Magnitude.label(), "from absolute magnitude");
    assert_eq!(Src::Unknown.label(), "unknown");
}

#[test]
fn luminosity_class_of_common_types() {
    assert_eq!(luminosity_class("B8Ia"), "Ia");
    assert_eq!(luminosity_class("G2V"), "V");
    assert_eq!(luminosity_class("K1.5III"), "III");
    assert_eq!(luminosity_class("A1Iab"), "Iab");
    assert_eq!(luminosity_class("M2Ib"), "Ib");
    assert_eq!(luminosity_class("F0IV"), "IV");
    assert_eq!(luminosity_class("G8II"), "II");
    assert_eq!(luminosity_class("sdK7VI"), "VI");
    assert_eq!(luminosity_class("DA2VII"), "VII");
    assert_eq!(luminosity_class("DBVIII"), "VIII");
    assert_eq!(luminosity_class("M2"), "");
    assert_eq!(luminosity_class(""), "");
}

#[test]
fn luminosity_class_longest_numeral_wins() {
    // "III" is tried before "II" and "I".
    assert_eq!(luminosity_class("K0III"), "III");
    // "IV" in "IV-V" is found before the lone "V".
    assert_eq!(luminosity_class("G5IV-V"), "IV");
}

#[test]
fn luminosity_class_skips_a_numeral_inside_a_longer_run() {
    // The first "I" is followed by another "I"; only its first occurrence
    // counts, so "I" is rejected and nothing else matches.
    assert_eq!(luminosity_class("XII"), "II");
    assert_eq!(luminosity_class("AIIIV"), "IV");
}

#[test]
fn lum_class_group_by_class() {
    assert_eq!(lum_class_group("Ia"), 0);
    assert_eq!(lum_class_group("Iab"), 0);
    assert_eq!(lum_class_group("Ib"), 0);
    assert_eq!(lum_class_group("I"), 0);
    assert_eq!(lum_class_group("II"), 1);
    assert_eq!(lum_class_group("III"), 2);
    assert_eq!(lum_class_group("IV"), 3);
    assert_eq!(lum_class_group("V"), 4);
    assert_eq!(lum_class_group("VI"), 5);
    assert_eq!(lum_class_group("VII"), 6);
    assert_eq!(lum_class_group("VIII"), 6);
    assert_eq!(lum_class_group(""), 7);
    assert_eq!(lum_class_group("v"), 7);
}

#[test]
fn class_letter_of_spectral_type() {
    assert_eq!(spectral_class("G2V"), 'G');
    assert_eq!(spectral_class("kA2hA5mA7V"), 'A');
    assert_eq!(spectral_class("WC8+O9I"), 'W');
    assert_eq!(spectral_class("C5,4"), 'C');
    assert_eq!(spectral_class("xyz"), '?');
    assert_eq!(spectral_class(""), '?');
}

#[test]
fn spectral_parts_split_class_and_subclass() {
    let (k, sub) = spectral_parts("B0.5Ia").unwrap();
    assert_eq!((k, sub.as_str()), (1, "0.5"));
    let (k, sub) = spectral_parts("G2V").unwrap();
    assert_eq!((k, sub.as_str()), (4, "2"));
    let (k, sub) = spectral_parts("K").unwrap();
    assert_eq!((k, sub.as_str()), (5, ""));
    let (k, sub) = spectral_parts("dM4.5e").unwrap();
    assert_eq!((k, sub.as_str()), (6, "4.5"));
    assert!(spectral_parts("WN5").is_none());
    assert!(spectral_parts("").is_none());
}

#[test]
fn temperature_source_prefers_published_values() {
    assert_eq!(Src::for_temperature(true, true, true), Src::Measured);
    assert_eq!(Src::for_temperature(false, true, true), Src::Spectral);
    assert_eq!(Src::for_temperature(false, false, true), Src::Color);
    assert_eq!(Src::for_temperature(false, false, false), Src::Unknown);
}

#[test]
fn luminosity_source_prefers_published_values() {
    assert_eq!(Src::for_luminosity(true, true, true), Src::Measured);
    assert_eq!(Src::for_luminosity(true, false, false), Src::Measured);
    assert_eq!(Src::for_luminosity(false, true, true), Src::Radius);
    assert_eq!(Src::for_luminosity(false, false, true), Src::Magnitude);
    assert_eq!(Src::for_luminosity(false, true, false), Src::Unknown);
}

#[test]
fn trim_strips_unicode_white_space() {
    assert_eq!(trim("  Sirius \t\n"), "Sirius");
    assert_eq!(trim("\u{a0}Vega\u{3000}"), "Vega");
    assert_eq!(trim("   "), "");
    assert_eq!(trim("a b"), "a b");
}

#[test]
fn decimal_writes_numbers() {
    assert_eq!(decimal(0), "0");
    assert_eq!(decimal(7), "7");
    assert_eq!(decimal(429), "429");
    assert_eq!(decimal(18446744073709551615), "18446744073709551615");
}
