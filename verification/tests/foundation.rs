use garage::json::{Json, Num};
use serde_json::Value;

fn to_json(v: &Value) -> Json {
    match v {
        Value::Null => Json::Null,
        Value::Bool(b) => Json::Bool(*b),
        Value::Number(n) => Json::Number(if let Some(u) = n.as_u64() {
            Num::PosInt(u)
        } else if let Some(i) = n.as_i64() {
            Num::NegInt(i)
        } else {
            let f = n.as_f64().unwrap();
            Num::Float { bits: f.to_bits(), trunc: f as i64 }
        }),
        Value::String(s) => Json::Str(s.clone()),
        Value::Array(a) => Json::Array(a.iter().map(to_json).collect()),
        Value::Object(o) => Json::Object(o.iter().map(|(k, v)| (k.clone(), to_json(v))).collect()),
    }
}

fn to_value(j: &Json) -> Value {
    match j {
        Json::Null => Value::Null,
        Json::Bool(b) => Value::Bool(*b),
        Json::Number(Num::PosInt(n)) => Value::from(*n),
        Json::Number(Num::NegInt(n)) => Value::from(*n),
        Json::Number(Num::Float { bits, trunc: _ }) => Value::from(f64::from_bits(*bits)),
        Json::Str(s) => Value::String(s.clone()),
        Json::Array(v) => Value::Array(v.iter().map(to_value).collect()),
        Json::Object(ms) => {
            let mut m = serde_json::Map::new();
            for (k, v) in ms.iter().rev() {
                m.insert(k.clone(), to_value(v));
            }
            Value::Object(m)
        }
    }
}

fn js(s: &str) -> Json {
    to_json(&serde_json::from_str(s).unwrap())
}

fn text(j: &Json) -> String {
    to_value(j).to_string()
}

fn says(j: &Json, s: &str) {
    assert_eq!(to_value(j), serde_json::from_str::<Value>(s).unwrap());
}

use garage::digits;
use garage::failure::{fail, Status};
use garage::names;
use garage::order;
use garage::outside;
use garage::text as words;

fn owned(v: &[&str]) -> Vec<String> {
    v.iter().map(|s| s.to_string()).collect()
}

#[test]
fn white_space_is_that_of_unicode() {
    for n in 0..=0x10ffffu32 {
        if let Some(c) = char::from_u32(n) {
            assert_eq!(words::space(c), c.is_whitespace(), "{}", n);
        }
    }
}

#[test]
fn trim_takes_both_ends() {
    assert_eq!(words::trim("  a b\t\n"), "a b");
    assert_eq!(words::trim("\u{a0}\u{3000}x\u{2028}"), "x");
    assert_eq!(words::trim(" \r\n "), "");
    assert_eq!(words::trim(""), "");
}

#[test]
fn trimming_again_changes_nothing() {
    for s in ["", " ", " a ", "a  b", "\u{85}q\u{85}"] {
        let once = words::trim(s);
        assert_eq!(words::trim(&once), once);
        assert_eq!(once, s.trim());
    }
}

#[test]
fn lower_is_that_of_unicode() {
    for s in ["ABC-1", "Äpfel", "ПРИВЕТ", "İ", "ΑΣ", "straße", ""] {
        assert_eq!(words::lower(s), s.to_lowercase());
    }
}

#[test]
fn ascii_lower_and_upper_leave_the_rest() {
    assert_eq!(words::ascii_lower("JpÉG"), "jpÉg");
    assert_eq!(words::ascii_upper("12-d-99é"), "12-D-99é");
}

#[test]
fn prefixes_and_suffixes() {
    assert!(words::starts_with("photo.png", "photo."));
    assert!(!words::starts_with("pho", "photo."));
    assert!(words::ends_with("a.json", ".json"));
    assert!(!words::ends_with("json", ".json"));
    assert_eq!(words::strip_prefix("X_12", "X_"), Some("12".to_string()));
    assert_eq!(words::strip_prefix("Y_12", "X_"), None);
    assert_eq!(words::strip_suffixes("a.json.json", ".json"), "a");
    assert_eq!(words::strip_suffixes("a", ".json"), "a");
    assert_eq!(words::text_after("data:image/png;base64,QUI=", "base64,"), "QUI=");
    assert_eq!(words::text_after("QUI=", "base64,"), "QUI=");
    assert_eq!(words::text_after("base64,base64,x", "base64,"), "base64,x");
}

#[test]
fn texts_are_ordered_by_character() {
    assert!(words::ordered("", ""));
    assert!(words::ordered("a", "b"));
    assert!(words::ordered("a", "ab"));
    assert!(!words::ordered("b", "ab"));
    assert!(words::ordered("Z", "a"));
    for (a, b) in [("é", "z"), ("\u{ffff}", "\u{10000}"), ("abc", "abd")] {
        assert_eq!(words::ordered(a, b), a <= b);
        assert_eq!(words::ordered(b, a), b <= a);
    }
}

#[test]
fn texts_are_cut_and_joined() {
    assert_eq!(words::split("a,b\nc", words::Cut::LineOrComma), owned(&["a", "b", "c"]));
    assert_eq!(words::split("", words::Cut::Line), owned(&[""]));
    assert_eq!(words::split("a b,\tc", words::Cut::CommaOrSpace), owned(&["a", "b", "", "c"]));
    assert_eq!(words::join(&owned(&["a", "b"]), "; "), "a; b");
    assert_eq!(words::join(&owned(&[]), "; "), "");
    assert_eq!(words::cat("a", "b"), "ab");
    assert_eq!(words::cat3("a", "-", "b"), "a-b");
    assert!(words::one_of("b", &owned(&["a", "b"])));
    assert!(!words::one_of("c", &owned(&["a", "b"])));
}

#[test]
fn numbers_are_written_and_read_back() {
    for n in [0u64, 7, 10, 99, 1234567890, u64::MAX] {
        assert_eq!(digits::number_text(n as u128), n.to_string());
        assert_eq!(digits::parse_u64(&n.to_string()), Some(n));
    }
    assert_eq!(digits::number_text(u128::MAX), u128::MAX.to_string());
    for n in [0i64, -1, 5, i64::MIN, i64::MAX] {
        assert_eq!(digits::signed_text(n), n.to_string());
        assert_eq!(digits::parse_i64(&n.to_string()), Some(n));
    }
}

#[test]
fn numbers_are_read_as_by_the_standard_library() {
    for s in [
        "", "+", "-", "+5", "-5", "--5", "007", "1 ", " 1", "1a", "18446744073709551615",
        "18446744073709551616", "9223372036854775807", "9223372036854775808",
        "-9223372036854775808", "-9223372036854775809", "-0", "+0", "99999999999999999999999", "٣",
    ] {
        assert_eq!(digits::parse_u64(s), s.parse::<u64>().ok(), "{}", s);
        assert_eq!(digits::parse_i64(s), s.parse::<i64>().ok(), "{}", s);
    }
}

#[test]
fn hexadecimal_digits_have_a_fixed_width() {
    for n in [0u64, 255, 0xdead_beef, u64::MAX] {
        assert_eq!(digits::hex_text(n, 16), format!("{:016x}", n));
    }
    assert_eq!(digits::hex_text(0x123, 2), "23");
}

#[test]
fn the_storage_places() {
    assert_eq!(names::cars_dir(), "cars");
    assert_eq!(names::workers_dir(), "workers");
    assert_eq!(names::store_dir(), "store");
    assert_eq!(names::store_items_dir(), "store/items");
    assert_eq!(names::store_divisions_file(), "store/divisions.json");
    assert_eq!(names::store_division_photos_dir(), "store/division-photos");
    assert_eq!(names::settings_dir(), "settings");
    assert_eq!(names::autofill_rules_file(), "settings/autofill.json");
    assert_eq!(names::settings_file(), "settings/settings.json");
    assert_eq!(names::chat_dir(), "chat");
    assert_eq!(names::chat_messages_file(), "chat/messages.json");
    assert_eq!(names::scanner_dir(), "scanner");
    assert_eq!(names::scanner_devices_file(), "scanner/devices.json");
    assert_eq!(names::scanner_pending_tokens_file(), "scanner/pending-tokens.json");
    assert_eq!(names::scanner_scans_file(), "scanner/scans.json");
    assert_eq!(names::legacy_database_dir(), "database");
}

#[test]
fn a_build_directory_is_told_apart() {
    assert!(names::base_dir("release", Some("target")));
    assert!(names::base_dir("debug", Some("target")));
    assert!(!names::base_dir("release", Some("opt")));
    assert!(!names::base_dir("release", None));
    assert!(!names::base_dir("bin", Some("target")));
}

#[test]
fn file_names_are_made_safe() {
    assert_eq!(names::sanitize_filename("../etc/pass wd"), "..etcpasswd");
    assert_eq!(names::sanitize_filename("Öl 5W-30.json"), "l5W-30.json");
    assert_eq!(names::sanitize_filename("///"), "untitled");
    assert_eq!(names::sanitize_filename(""), "untitled");
    let once = names::sanitize_filename("a b/c");
    assert_eq!(names::sanitize_filename(&once), once);
}

#[test]
fn plates_are_made_safe() {
    assert_eq!(names::sanitize_plate("12-d 345"), "12-D345");
    assert_eq!(names::sanitize_plate("12.d"), "12D");
    assert_eq!(names::sanitize_plate("  "), "UNKNOWN");
    let once = names::sanitize_plate("abc_1");
    assert_eq!(once, "ABC_1");
    assert_eq!(names::sanitize_plate(&once), once);
}

#[test]
fn extensions_and_stems_are_those_of_paths() {
    for n in [
        "a.json", "a.b.c", ".hidden", "..", "...", "a.", ".a.b", "noext", "", ".", "x..y",
    ] {
        let p = std::path::Path::new(n);
        if n != "" && n != "." {
            assert_eq!(
                names::file_extension(n),
                p.extension().map(|e| e.to_str().unwrap().to_string()),
                "{}",
                n
            );
        }
        if n != "" && n != "." && n != ".." {
            assert_eq!(names::file_stem(n), p.file_stem().unwrap().to_str().unwrap(), "{}", n);
        }
    }
}

#[test]
fn records_are_kept_in_json_files() {
    assert!(names::is_record_file("a.json"));
    assert!(!names::is_record_file("a.JSON"));
    assert!(!names::is_record_file(".json"));
    assert_eq!(names::record_file("brakes"), "brakes.json");
    assert_eq!(names::record_file("brakes.JSON"), "brakes.JSON");
    assert_eq!(names::record_file("a/b"), "ab.json");
    let once = names::record_file("x y");
    assert_eq!(names::record_file(&once), once);
    assert_eq!(names::stamped_id("oil-", 1700000000000), "oil-1700000000000");
    assert_ne!(names::stamped_id("w-", 1), names::stamped_id("w-", 11));
}

#[test]
fn the_clock_is_past_2020() {
    let a = outside::now_millis();
    let b = outside::now_millis();
    assert!(a > 1_577_836_800_000);
    assert!(b >= a);
}

#[test]
fn documents_are_read_by_member() {
    let d = js(r#"{"a": "x", "n": 5, "m": -2, "f": 2.9, "t": true, "l": [1, 2], "o": {"k": null}}"#);
    assert!(d.is_object());
    assert_eq!(d.text_at("a"), Some("x"));
    assert_eq!(d.text_at("n"), None);
    assert_eq!(d.text_or("z", "other"), "other");
    assert_eq!(d.text_in("z"), "");
    assert_eq!(d.whole_at("n"), Some(5));
    assert_eq!(d.whole_at("m"), None);
    assert_eq!(d.whole_or("z", 9), 9);
    assert_eq!(d.get("m").unwrap().integer(), Some(-2));
    assert_eq!(d.get("f").unwrap().integer(), None);
    assert_eq!(d.get("f").unwrap().rounded(), Some(2));
    assert_eq!(d.get("t").unwrap().truth(), Some(true));
    assert!(d.flag_at("t"));
    assert!(!d.flag_at("a"));
    assert_eq!(d.items_at("l").unwrap().len(), 2);
    assert!(d.items_at("o").is_none());
    assert!(d.has("o") && !d.has("z"));
    assert!(js("[1]").get("0").is_none());
    assert_eq!(js("18446744073709551615").integer(), None);
    assert_eq!(js("18446744073709551615").rounded(), Some(i64::MAX));
    assert_eq!(js("-1e300").rounded(), Some(i64::MIN));
    let mut keys = d.keys();
    keys.sort();
    assert_eq!(keys, owned(&["a", "f", "l", "m", "n", "o", "t"]));
}

#[test]
fn documents_are_changed_by_member() {
    let d = js(r#"{"a": 1, "b": 2}"#);
    says(&d.clone().with("b", Json::of_u64(3)).with_text("c", "x"), r#"{"a":1,"b":3,"c":"x"}"#);
    says(&d.clone().without("a"), r#"{"b":2}"#);
    says(&d.clone().overlaid(&js(r#"{"b": 9, "z": []}"#)), r#"{"a":1,"b":9,"z":[]}"#);
    says(&d.clone().overlaid(&js("[1]")), r#"{"a":1,"b":2}"#);
    says(&d.clone().keeping(&js(r#"{"a": 7, "q": 8}"#), "a"), r#"{"a":1,"b":2}"#);
    says(&d.keeping(&js(r#"{"a": 7, "q": 8}"#), "q"), r#"{"a":1,"b":2,"q":8}"#);
    says(&js("[1]").with_text("a", "x"), "[1]");
    says(&Json::of_i64(-4), "-4");
    says(&Json::of_i64(4), "4");
    says(&Json::maybe_text(None), "null");
    assert_eq!(text(&Json::list(vec![Json::Null, Json::Bool(true)])), "[null,true]");
}

#[test]
fn the_first_of_two_members_with_one_name_counts() {
    let d = Json::Object(vec![
        ("a".to_string(), Json::of_u64(1)),
        ("a".to_string(), Json::of_u64(2)),
    ]);
    assert_eq!(d.whole_at("a"), Some(1));
    assert_eq!(d.clone().without("a").keys().len(), 0);
    says(&d, r#"{"a":1}"#);
}

#[test]
fn sorting_keeps_equals_in_place() {
    let rows = vec![
        js(r#"{"ms": 1, "n": "a"}"#),
        js(r#"{"ms": 3, "n": "b"}"#),
        js(r#"{"ms": 1, "n": "c"}"#),
        js(r#"{"n": "d"}"#),
        js(r#"{"ms": 3, "n": "e"}"#),
    ];
    let sorted = order::sort_newest_first(rows, "ms");
    let ns: Vec<String> = sorted.iter().map(|r| r.text_in("n")).collect();
    assert_eq!(ns, owned(&["b", "e", "a", "c", "d"]));
    let by = order::sort_by_text(sorted, "n");
    let ns: Vec<String> = by.iter().map(|r| r.text_in("n")).collect();
    assert_eq!(ns, owned(&["a", "b", "c", "d", "e"]));
}

#[test]
fn failures_have_the_codes_of_http() {
    let all = [
        (Status::BadRequest, 400),
        (Status::Unauthorized, 401),
        (Status::NotFound, 404),
        (Status::Conflict, 409),
        (Status::Internal, 500),
        (Status::BadGateway, 502),
    ];
    for (s, n) in all {
        let f = fail(s, "m");
        assert_eq!(f.status.code(), n);
        assert_eq!(f.message, "m");
    }
}

#[test]
fn texts_are_coded_in_plain_characters() {
    assert_eq!(names::encode_name("Ab9"), "Ab9");
    assert_eq!(names::encode_name("a-_."), "a_00002d_00005f_00002e");
    assert_eq!(names::encode_name("\u{e9}"), "_0000e9");
    assert_eq!(names::encode_name("\u{10ffff}"), "_10ffff");
    assert_eq!(names::encode_name(""), "");
    assert_ne!(names::encode_name("_00002d"), names::encode_name("-"));
}

#[test]
fn texts_are_the_same_where_their_characters_are() {
    assert!(words::same("", ""));
    assert!(words::same("na\u{ef}ve", "na\u{ef}ve"));
    assert!(!words::same("na\u{ef}ve", "naive"));
    assert!(!words::same("ab", "abc"));
    assert!(!words::same("ab", "ac"));
}
