use sentinelx::ascii::{drop_leading, drop_trailing, same_ignoring_case, take_chars, to_lower, to_upper};
use sentinelx::digits::{decimal_text, hex_bytes, numeral_text, padded_text, parse_radix, parse_u64, signed_text, value_of};
use sentinelx::json::{equal, field, into_object, remove_field, set_field, string, Json, Number, Object};
use sentinelx::order::{is_less, join as join_texts, sort};
use sentinelx::paths::{components_of, extension_of, file_name_of, has_parent_part, is_absolute, is_under, join, parent_of};
use sentinelx::patterns::byte_slice;
use sentinelx::ratio::{divide, from_count, multiply, to_count, Double, FRACTION, NINETEEN_TWENTIETHS, THREE_FIFTHS};
use sentinelx::text::{
    contains, find, interleave, is_white, lines, replace, replace_some, split, split_once, split_words, trim,
};
use sentinelx::time::{clamp_seconds, seconds_of, seconds_text, Duration};
use sentinelx::wire::{read_json, write_json};

fn json(text: &str) -> Json {
    read_json(text.as_bytes()).unwrap()
}

fn object(text: &str) -> Object {
    into_object(json(text))
}

#[test]
fn white_characters_are_those_of_unicode() {
    for n in 0..=0x10ffff_u32 {
        if let Some(c) = char::from_u32(n) {
            assert_eq!(is_white(c), c.is_whitespace(), "{n:x}");
        }
    }
}

#[test]
fn texts_are_taken_apart_as_std_does() {
    for text in ["", "a", " a b ", "a\r\nb\n", "\n\n", "a,b,,c", "x=y=z", "\u{a0}é\t", "a\rb"] {
        assert_eq!(trim(text), text.trim());
        assert_eq!(lines(text), text.lines().collect::<Vec<_>>());
        assert_eq!(split(text, ','), text.split(',').collect::<Vec<_>>());
        assert_eq!(split_words(text), text.split_whitespace().collect::<Vec<_>>());
        let once = split_once(text, '=');
        assert_eq!(once.as_ref().map(|(a, b)| (a.as_str(), b.as_str())), text.split_once('='));
        assert_eq!(to_lower(text), text.to_ascii_lowercase());
        assert_eq!(to_upper(text), text.to_ascii_uppercase());
        assert_eq!(contains(text, "b"), text.contains("b"));
        assert_eq!(replace(text, "b", "--").0, text.replace("b", "--"));
        assert_eq!(replace_some(text, "\n", "+", 1).0, text.replacen('\n', "+", 1));
        assert_eq!(interleave(text, "-"), text.replace("", "-"));
        assert_eq!(take_chars(text, 2), text.chars().take(2).collect::<String>());
        assert_eq!(drop_leading(text, 'a'), text.trim_start_matches('a'));
        assert_eq!(drop_trailing(text, 'a'), text.trim_end_matches('a'));
    }
    assert_eq!(find("aéb", "b"), Some(2));
    assert_eq!(byte_slice("aéb", 1, 3), "é");
    assert!(same_ignoring_case("AbC", "aBc"));
}

#[test]
fn numerals_read_back() {
    for n in [0_u64, 7, 10, 255, 4096, u64::MAX] {
        assert_eq!(decimal_text(n), n.to_string());
        assert_eq!(numeral_text(n, 16), format!("{n:x}"));
        assert_eq!(padded_text(n, 16, 16), format!("{n:016x}"));
        assert_eq!(parse_u64(&decimal_text(n)), Some(n));
    }
    assert_eq!(signed_text(i64::MIN), i64::MIN.to_string());
    for text in ["", "+", "+5", "-1", "5x", "18446744073709551616", "007"] {
        assert_eq!(parse_u64(text), text.parse::<u64>().ok(), "{text}");
    }
    assert_eq!(parse_radix("755", 8, 0o7777), Some(0o755));
    assert_eq!(parse_radix("8", 8, 100), None);
    assert_eq!(value_of('f', 16), Some(15));
    assert_eq!(hex_bytes(&[0, 255, 16]), "00ff10");
}

#[test]
fn texts_are_ordered_by_their_characters() {
    let names: Vec<String> = ["b", "a", "é", "", "ab"].iter().map(|t| (*t).to_owned()).collect();
    let mut expected = names.clone();
    expected.sort();
    assert_eq!(sort(names), expected);
    assert!(is_less("a", "b") && !is_less("b", "a"));
    assert_eq!(join_texts(&expected, ", "), expected.join(", "));
}

#[test]
fn paths_follow_std() {
    for p in ["/", "/a/b", "a/b/", "./a", "a/../b", "", "a//b", "/a/.", "..", "/a/b.tar.gz", ".hidden", "x."] {
        let path = std::path::Path::new(p);
        assert_eq!(is_absolute(p), path.is_absolute(), "{p}");
        assert_eq!(file_name_of(p).as_deref(), path.file_name().and_then(|n| n.to_str()), "{p}");
        assert_eq!(parent_of(p).as_deref(), path.parent().and_then(|n| n.to_str()), "{p}");
        assert_eq!(extension_of(p).as_deref(), path.extension().and_then(|n| n.to_str()), "{p}");
        assert_eq!(join("/base", p), path_text(&std::path::Path::new("/base").join(p)), "{p}");
        let parts: Vec<String> = path.components().map(|c| c.as_os_str().to_string_lossy().into_owned()).collect();
        assert_eq!(components_of(p), parts, "{p}");
        assert_eq!(is_under(p, "/a"), path.starts_with("/a"), "{p}");
    }
    assert!(has_parent_part("a/../b") && !has_parent_part("a..b"));
}

fn path_text(p: &std::path::Path) -> String {
    p.to_string_lossy().into_owned()
}

#[test]
fn ratios_round_as_floating_point_does() {
    let as_float = |d: Double| d.m as f64 * (d.e as f64).exp2();
    let head = Double { m: THREE_FIFTHS, e: FRACTION };
    let slack = Double { m: NINETEEN_TWENTIETHS, e: FRACTION };
    assert_eq!(as_float(head), 0.6);
    assert_eq!(as_float(slack), 0.95);
    for n in [0_usize, 1, 2, 3, 7, 99, 255, 1000, 4097, 131_072, 999_999, 12_345_678, 987_654_321] {
        assert_eq!(to_count(multiply(from_count(n), head)), (n as f64 * 0.6) as usize, "{n}");
        assert_eq!(to_count(multiply(from_count(n), slack)), (n as f64 * 0.95) as usize, "{n}");
        for d in [1_usize, 3, 7, 1000, 65_537] {
            let expected = n as f64 / d as f64;
            let found = as_float(divide(from_count(n), from_count(d)));
            assert_eq!(found, expected, "{n} / {d}");
            assert_eq!(
                to_count(multiply(multiply(from_count(n), divide(from_count(n), from_count(d))), slack)),
                (n as f64 * expected * 0.95) as usize
            );
        }
    }
}

#[test]
fn seconds_are_clamped_and_written() {
    let billion: u128 = 1_000_000_000;
    assert_eq!(clamp_seconds("2.5", 0, 10 * billion), Some(Duration::from_millis(2500)));
    assert_eq!(clamp_seconds("-1", 0, billion), Some(Duration::zero()));
    assert_eq!(clamp_seconds("1e400", 0, billion), None);
    assert_eq!(clamp_seconds("x", 0, billion), None);
    assert_eq!(seconds_of(Some(&json("0.25")), 7, 0, billion), Duration::from_millis(250));
    assert_eq!(seconds_of(Some(&json("\"x\"")), billion, 0, 2 * billion), Duration::from_secs(1));
    assert_eq!(seconds_of(None, billion, 0, 2 * billion), Duration::from_secs(1));
    for (units, text) in [(0_u64, "0.0"), (150, "1.5"), (5, "0.05"), (1234, "12.34")] {
        assert_eq!(seconds_text(units, 100, 2), text);
        assert_eq!(seconds_text(units, 100, 2).parse::<f64>().ok(), Some(units as f64 / 100.0));
    }
}

#[test]
fn json_is_read_and_written() {
    for text in [r#"{"a":[1,-2,1.5,true,null,"é\n"],"b":{}}"#, "[]", "\"x\"", "18446744073709551615", "-9223372036854775808"] {
        assert_eq!(write_json(&json(text)), text);
    }
    for bad in ["", "{", "{\"a\":}", "nul", "[1,]"] {
        assert!(read_json(bad.as_bytes()).is_err(), "{bad}");
    }
    assert_eq!(write_json(&json(r#"{"b":1,"a":2,"b":3}"#)), r#"{"a":2,"b":3}"#);
    assert!(equal(&json("[1,{\"a\":2}]"), &json("[1, {\"a\": 2}]")));
    assert!(!equal(&json("[1]"), &json("[2]")));
}

#[test]
fn microseconds_are_written_and_read_back() {
    let mut micros: Vec<u64> = vec![10, 99, 1_000_000, 1_700_000_000_000_000, 4_294_967_296_000_001, 8_589_934_591_999_999];
    let mut x: u64 = 12_345;
    for _ in 0..2000 {
        x = x.wrapping_mul(6_364_136_223_846_793_005).wrapping_add(1_442_695_040_888_963_407);
        micros.push(10 + x % (8_589_934_592_000_000 - 10));
    }
    for m in micros {
        let text = seconds_text(m, 1_000_000, 6);
        assert_eq!(write_json(&Json::Number(Number::Float(text.clone()))), text);
        assert_eq!(write_json(&json(&text)), text);
        let nanos = clamp_seconds(&text, 0, u128::MAX).unwrap().nanos;
        assert!(nanos.abs_diff(u128::from(m) * 1000) < 1000, "{text} is {nanos}");
    }
    assert_eq!(write_json(&json("0.000009")), "9e-6");
}

#[test]
fn fields_are_set_replaced_and_removed() {
    let mut o = object("{}");
    set_field(&mut o, "b", string("1"));
    set_field(&mut o, "a", string("2"));
    set_field(&mut o, "b", string("3"));
    assert_eq!(write_json(field(&o, "b").unwrap()), "\"3\"");
    assert_eq!(o.len(), 2);
    assert!(remove_field(&mut o, "b").is_some());
    assert!(remove_field(&mut o, "b").is_none());
    assert!(field(&o, "b").is_none());
}
