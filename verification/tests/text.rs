use typenx_addon_anilist::text::{is_white_space, to_lowercase, trim_str};
use typenx_addon_anilist::time::rfc3339_of_timestamp;

#[test]
fn white_space_matches_the_unicode_property() {
    for code in 0u32..=0x10FFFF {
        if let Some(c) = char::from_u32(code) {
            assert_eq!(is_white_space(c), c.is_whitespace(), "U+{code:04X}");
        }
    }
}

#[test]
fn trim_keeps_letters_and_drops_unicode_spaces() {
    assert_eq!(trim_str("B"), "B");
    assert_eq!(trim_str("\u{3000}\u{00A0} Naruto\u{2029}\t"), "Naruto");
    assert_eq!(trim_str("\u{200B}x"), "\u{200B}x");
}

#[test]
fn lowercase_lowers_ascii_capitals() {
    assert_eq!(to_lowercase("WINTER 2021"), "winter 2021");
    assert_eq!(to_lowercase("ÄÖ İ"), "äö i\u{307}");
    assert!(!to_lowercase("ΣΑΣ ÀZ").chars().any(|c| c.is_ascii_uppercase()));
}

#[test]
fn timestamps_render_as_rfc3339() {
    assert_eq!(rfc3339_of_timestamp(0), Some("1970-01-01T00:00:00.000Z".to_string()));
    assert_eq!(rfc3339_of_timestamp(1431648000), Some("2015-05-15T00:00:00.000Z".to_string()));
    assert_eq!(rfc3339_of_timestamp(-1), Some("1969-12-31T23:59:59.000Z".to_string()));
    assert_eq!(rfc3339_of_timestamp(951782400 + 3661), Some("2000-02-29T01:01:01.000Z".to_string()));
    assert_eq!(rfc3339_of_timestamp(-62135596801), Some("0000-12-31T23:59:59.000Z".to_string()));
    assert_eq!(rfc3339_of_timestamp(-62167305600), Some("-0001-12-31T00:00:00.000Z".to_string()));
    assert_eq!(rfc3339_of_timestamp(253402300800), Some("+10000-01-01T00:00:00.000Z".to_string()));
    assert_eq!(rfc3339_of_timestamp(i64::MAX), None);
    assert_eq!(rfc3339_of_timestamp(i64::MIN), None);
}

#[test]
fn no_character_lowers_to_an_ascii_capital() {
    for code in 0u32..=0x10FFFF {
        if let Some(c) = char::from_u32(code) {
            let lower = to_lowercase(&format!("x{c}"));
            assert!(!lower.chars().any(|d| d.is_ascii_uppercase()), "U+{code:04X}");
        }
    }
}
