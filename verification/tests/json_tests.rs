use enriching_students::json::{Json, parse_json, escape_string, u64_to_string, str_eq, is_blank,
    get_field};

fn parse(s: &str) -> Json {
    match parse_json(s) {
        Some(v) => v,
        None => panic!("expected a parse"),
    }
}

#[test]
fn parses_simple_object() {
    let v = parse("{\"a\":1,\"b\":\"x\"}");
    match v {
        Json::Obj(fields) => {
            assert_eq!(fields.len(), 2);
            assert_eq!(fields[0].0, "a");
            assert!(matches!(fields[0].1, Json::UInt(1)));
            assert_eq!(fields[1].0, "b");
            match &fields[1].1 {
                Json::Str(s) => assert_eq!(s, "x"),
                _ => panic!("expected a string"),
            }
        },
        _ => panic!("expected an object"),
    }
}

#[test]
fn parses_empty_object_and_array() {
    assert!(matches!(parse("{}"), Json::Obj(f) if f.is_empty()));
    assert!(matches!(parse("[]"), Json::Arr(a) if a.is_empty()));
    assert!(matches!(parse("  { }  "), Json::Obj(f) if f.is_empty()));
    assert!(matches!(parse("[ ]"), Json::Arr(a) if a.is_empty()));
}

#[test]
fn parses_nested_values() {
    let v = parse("{\"outer\":{\"inner\":[true,false,null,7]}}");
    match v {
        Json::Obj(fields) => match &fields[0].1 {
            Json::Obj(inner) => match &inner[0].1 {
                Json::Arr(items) => {
                    assert_eq!(items.len(), 4);
                    assert!(matches!(items[0], Json::Bool(true)));
                    assert!(matches!(items[1], Json::Bool(false)));
                    assert!(matches!(items[2], Json::Null));
                    assert!(matches!(items[3], Json::UInt(7)));
                },
                _ => panic!("expected an array"),
            },
            _ => panic!("expected an object"),
        },
        _ => panic!("expected an object"),
    }
}

#[test]
fn parses_string_escapes() {
    let v = parse("\"a\\\"b\\\\c\\nd\\te\\/f\"");
    match v {
        Json::Str(s) => assert_eq!(s, "a\"b\\c\nd\te/f"),
        _ => panic!("expected a string"),
    }
}

#[test]
fn parses_unicode_escapes() {
    match parse("\"a\\u0041b\"") {
        Json::Str(s) => assert_eq!(s, "aAb"),
        _ => panic!("expected a string"),
    }
    match parse("\"caf\\u00e9\"") {
        Json::Str(s) => assert_eq!(s, "caf\u{00e9}"),
        _ => panic!("expected a string"),
    }
    match parse("\"\\ud83d\\ude00\"") {
        Json::Str(s) => assert_eq!(s, "\u{1F600}"),
        _ => panic!("expected a string"),
    }
}

#[test]
fn rejects_bad_unicode_escapes() {
    assert!(parse_json("\"\\u12\"").is_none());
    assert!(parse_json("\"\\uzzzz\"").is_none());
    assert!(parse_json("\"\\ud83d\"").is_none());
    assert!(parse_json("\"\\ude00\"").is_none());
}

#[test]
fn parses_whitespace_everywhere() {
    let v = parse(" { \"k\" : [ 1 , 2 ] } ");
    match v {
        Json::Obj(fields) => match &fields[0].1 {
            Json::Arr(items) => assert_eq!(items.len(), 2),
            _ => panic!("expected an array"),
        },
        _ => panic!("expected an object"),
    }
}

#[test]
fn parses_large_number() {
    assert!(matches!(parse("18446744073709551615"), Json::UInt(u64::MAX)));
}

#[test]
fn oversized_integer_is_kept_as_text() {
    match parse("18446744073709551616") {
        Json::NumText(t) => assert_eq!(t, "18446744073709551616"),
        _ => panic!("expected number text"),
    }
}

#[test]
fn other_number_shapes_are_kept_as_text() {
    match parse("-1") {
        Json::NumText(t) => assert_eq!(t, "-1"),
        _ => panic!("expected number text"),
    }
    match parse("1.5") {
        Json::NumText(t) => assert_eq!(t, "1.5"),
        _ => panic!("expected number text"),
    }
    match parse("[2.5e-3,1E8]") {
        Json::Arr(items) => {
            assert!(matches!(&items[0], Json::NumText(t) if t == "2.5e-3"));
            assert!(matches!(&items[1], Json::NumText(t) if t == "1E8"));
        },
        _ => panic!("expected an array"),
    }
}

#[test]
fn rejects_malformed_text() {
    assert!(parse_json("").is_none());
    assert!(parse_json("   ").is_none());
    assert!(parse_json("{").is_none());
    assert!(parse_json("{\"a\":}").is_none());
    assert!(parse_json("{\"a\" 1}").is_none());
    assert!(parse_json("[1,]").is_none());
    assert!(parse_json("\"unterminated").is_none());
    assert!(parse_json("tru").is_none());
    assert!(parse_json("-").is_none());
    assert!(parse_json("1.").is_none());
    assert!(parse_json(".5").is_none());
    assert!(parse_json("1e").is_none());
    assert!(parse_json("{} trailing").is_none());
}

#[test]
fn escape_string_escapes_specials() {
    assert_eq!(escape_string("plain"), "plain");
    assert_eq!(escape_string("a\"b"), "a\\\"b");
    assert_eq!(escape_string("a\\b"), "a\\\\b");
    assert_eq!(escape_string("a\nb\tc\rd"), "a\\nb\\tc\\rd");
    assert_eq!(escape_string(""), "");
}

#[test]
fn u64_to_string_formats_decimals() {
    assert_eq!(u64_to_string(0), "0");
    assert_eq!(u64_to_string(7), "7");
    assert_eq!(u64_to_string(42), "42");
    assert_eq!(u64_to_string(1000), "1000");
    assert_eq!(u64_to_string(u64::MAX), "18446744073709551615");
}

#[test]
fn str_eq_compares_exactly() {
    assert!(str_eq("", ""));
    assert!(str_eq("abc", "abc"));
    assert!(!str_eq("abc", "abd"));
    assert!(!str_eq("abc", "abcd"));
    assert!(!str_eq("Chess Club", "chess club"));
}

#[test]
fn is_blank_sees_whitespace_only() {
    assert!(is_blank(""));
    assert!(is_blank(" \t\r\n"));
    assert!(!is_blank(" x "));
}

#[test]
fn get_field_returns_first_match() {
    let v = parse("{\"k\":1,\"other\":2,\"k\":3}");
    match v {
        Json::Obj(fields) => {
            assert!(matches!(get_field(&fields, "k"), Some(Json::UInt(1))));
            assert!(matches!(get_field(&fields, "other"), Some(Json::UInt(2))));
            assert!(get_field(&fields, "absent").is_none());
        },
        _ => panic!("expected an object"),
    }
}
