use stryke_spark::json::{put, Json};
use stryke_spark::text::{
    chars_of, dec_text, digits_u64, find_text, lower_text, read_u32, rfind_char, space,
    split_chars, trim_chars,
};
use stryke_spark::wire::{display_json, encode_json, parse_bytes, parse_json};

#[test]
fn white_space_is_that_of_the_standard_library() {
    for c in '\0'..=char::MAX {
        assert_eq!(space(c), c.is_whitespace(), "{c:?}");
    }
}

#[test]
fn trimming_is_that_of_the_standard_library() {
    for s in ["", " ", "a", " a ", "\t\u{a0}a b\u{3000}\n", "\u{200b}a", "a\u{2028}"] {
        let cs = chars_of(s);
        let got: String = trim_chars(&cs).iter().collect();
        assert_eq!(got, s.trim());
    }
}

#[test]
fn numbers_are_read_as_the_standard_library_reads_them() {
    for s in [
        "", "0", "7", "+7", "++7", "-7", "007", "4294967295", "4294967296", "99999999999999999999",
        "+", " 7", "7 ", "٧", "1_0",
    ] {
        assert_eq!(read_u32(&chars_of(s)), s.parse::<u32>().ok(), "{s:?}");
    }
    for s in ["0", "18446744073709551615", "18446744073709551616", "00018446744073709551615"] {
        assert_eq!(digits_u64(&chars_of(s)), s.parse::<u64>().ok(), "{s:?}");
    }
    let words = "99999999999999999999".parse::<u64>().unwrap_err().to_string();
    assert_eq!(words, "number too large to fit in target type");
}

#[test]
fn numbers_are_written_as_the_standard_library_writes_them() {
    for n in [0, 9, 10, 99, 100, 1234567890, u64::MAX] {
        assert_eq!(dec_text(n), n.to_string());
    }
}

#[test]
fn texts_are_split_and_searched_as_in_the_standard_library() {
    for s in ["", ",", "a", "a,b", ",a,,b,", "日,本"] {
        let want: Vec<&str> = s.split(',').collect();
        assert_eq!(split_chars(&chars_of(s), ','), want);
    }
    let cs = chars_of("a://b://c");
    assert_eq!(find_text(&cs, "://"), Some(1));
    assert_eq!(find_text(&cs, "x"), None);
    assert_eq!(rfind_char(&cs, ':'), Some(5));
    assert_eq!(rfind_char(&cs, '?'), None);
    assert_eq!(lower_text(&chars_of("AbÉZ[`")), "AbÉZ[`".to_ascii_lowercase());
}

#[test]
fn a_later_member_takes_the_place_of_an_earlier() {
    let mut m = vec![];
    put(&mut m, "a", Json::uint(1));
    put(&mut m, "b", Json::Null);
    put(&mut m, "a", Json::text("x"));
    let v = Json::Object(m);
    assert_eq!(v.str_at("a"), Some("x"));
    assert_eq!(v.get("c"), None);
    assert!(v.get("b").unwrap().is_null());
    assert_eq!(encode_json(v), r#"{"a":"x","b":null}"#);
}

#[test]
fn values_survive_the_way_through_text() {
    let text = r#"{"a":[1,-1,18446744073709551615,1.5,true,null,"\u0001é"],"b":{"":{}}}"#;
    let v = parse_json(text).unwrap();
    assert_eq!(v.copy(), v);
    assert_eq!(display_json(&v), text);
    assert_eq!(parse_bytes(text.as_bytes()), v);
    assert_eq!(encode_json(v), text);
    assert_eq!(
        parse_json("{").unwrap_err().message,
        serde_json::from_str::<serde_json::Value>("{").unwrap_err().to_string()
    );
}

#[test]
fn values_are_read_as_deep_as_the_reader_goes() {
    let nested = |n: usize| "[".repeat(n) + &"]".repeat(n);
    let v = parse_json(&nested(127)).unwrap();
    assert_eq!(encode_json(v), nested(127));
    assert!(parse_json(&nested(128)).is_err());
}

#[test]
fn values_are_taken_for_what_they_are() {
    let v = parse_json(r#"{"n": 3, "m": -3, "f": 3.0, "s": "x", "a": [1], "o": {}}"#).unwrap();
    assert_eq!(v.u64_at("n"), Some(3));
    assert_eq!(v.u64_at("m"), None);
    assert_eq!(v.u64_at("f"), None);
    assert_eq!(v.u64_at("s"), None);
    assert_eq!(v.str_at("n"), None);
    assert_eq!(v.str_at_either("z", "s"), Some("x"));
    assert_eq!(v.str_at_either("n", "s"), None);
    assert_eq!(v.array_at("a").unwrap().len(), 1);
    assert!(v.array_at("o").is_none());
    assert!(v.get("o").unwrap().is_object());
    assert_eq!(Json::signed(-9).as_u64(), None);
    assert_eq!(display_json(&Json::signed(-9)), "-9");
}
