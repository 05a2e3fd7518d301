use garage::json::{Json, Num};
use serde_json::Value;

fn to_json(v: &Value) -> Json {
    match v {
        Value::Null => Json::Null,
        Value::Bool(b) => Json::Bool(*b),
        Value::Number(n) => Json::Number(if let Some(u) = n.as_u64() {
            Num::PosInt(u)
        } else if let Some(i) = n.as_i64() {
            Num::NegInt(i)
        } else {
            let f = n.as_f64().unwrap();
            Num::Float { bits: f.to_bits(), trunc: f as i64 }
        }),
        Value::String(s) => Json::Str(s.clone()),
        Value::Array(a) => Json::Array(a.iter().map(to_json).collect()),
        Value::Object(o) => Json::Object(o.iter().map(|(k, v)| (k.clone(), to_json(v))).collect()),
    }
}

fn to_value(j: &Json) -> Value {
    match j {
        Json::Null => Value::Null,
        Json::Bool(b) => Value::Bool(*b),
        Json::Number(Num::PosInt(n)) => Value::from(*n),
        Json::Number(Num::NegInt(n)) => Value::from(*n),
        Json::Number(Num::Float { bits, trunc: _ }) => Value::from(f64::from_bits(*bits)),
        Json::Str(s) => Value::String(s.clone()),
        Json::Array(v) => Value::Array(v.iter().map(to_value).collect()),
        Json::Object(ms) => {
            let mut m = serde_json::Map::new();
            for (k, v) in ms.iter().rev() {
                m.insert(k.clone(), to_value(v));
            }
            Value::Object(m)
        }
    }
}

fn js(s: &str) -> Json {
    to_json(&serde_json::from_str(s).unwrap())
}

fn text(j: &Json) -> String {
    to_value(j).to_string()
}

fn says(j: &Json, s: &str) {
    assert_eq!(to_value(j), serde_json::from_str::<Value>(s).unwrap());
}

use garage::autofill;
use garage::divisions;
use garage::records;
use garage::stocktake;
use garage::store;
use garage::store::ItemFolder;

fn owned(v: &[&str]) -> Vec<String> {
    v.iter().map(|s| s.to_string()).collect()
}

fn list(s: &str) -> Vec<Json> {
    match js(s) {
        Json::Array(v) => v,
        _ => panic!("no list"),
    }
}

fn item(id: &str, record: &str) -> ItemFolder {
    ItemFolder { id: id.to_string(), record: js(record), images: vec![] }
}

#[test]
fn rules_are_put_in_their_proper_form() {
    let r = autofill::normalize_rule_payload(js(
        r#"{"name": " Service ", "trigger": 5, "x": 1,
            "applies_to": [" Petrol ", "any", "diesel", "PETROL", "steam", 7, ""],
            "parts": [{"used": " filter ", "quantity": "1", "extra": 2}, {"used": " "}, 3],
            "services": [" wash ", {"desc": " test "}, {"desc": ""}, 4],
            "oils": {"enabled": true, "older_than_years": " 12 ", "older_specific": " 10W-40 "}}"#,
    ));
    let want = r#"{"name": "Service", "trigger": 5, "x": 1, "applies_to": ["petrol", "diesel"],
        "parts": [{"used": "filter", "number": "", "quantity": "1", "unit": ""}],
        "services": [{"desc": "wash"}, {"desc": "test"}],
        "oils": {"enabled": true, "older_than_years": 12, "older_specific": {"used": "10W-40", "number": ""}}}"#;
    says(&r, want);
    says(&autofill::normalize_rule_payload(r), want);
    says(&autofill::normalize_rule_payload(js("[1]")), "[1]");
}

#[test]
fn a_rule_without_members_gets_them() {
    says(
        &autofill::normalize_rule_payload(js("{}")),
        r#"{"applies_to": [], "parts": [], "services": [],
            "oils": {"enabled": false, "older_than_years": null, "older_specific": {"used": "", "number": ""}}}"#,
    );
    let fuels = |s: &str| {
        let r = autofill::normalize_rule_payload(js(&format!(r#"{{"applies_to": {}}}"#, s)));
        text(r.get("applies_to").unwrap())
    };
    assert_eq!(fuels(r#"" Diesel-Electric ""#), r#"["diesel-electric"]"#);
    assert_eq!(fuels(r#""any""#), "[]");
    assert_eq!(fuels("5"), "[]");
}

#[test]
fn the_age_of_a_rule_is_a_positive_number() {
    let years = |s: &str| {
        let r = autofill::normalize_rule_payload(js(&format!(r#"{{"oils": {{"older_than_years": {}}}}}"#, s)));
        text(r.get("oils").unwrap().get("older_than_years").unwrap())
    };
    assert_eq!(years("10"), "10");
    assert_eq!(years("10.9"), "10");
    assert_eq!(years("0"), "null");
    assert_eq!(years("-3"), "null");
    assert_eq!(years(r#""7""#), "7");
    assert_eq!(years(r#""7.5""#), "null");
    assert_eq!(years("18446744073709551615"), "null");
    assert_eq!(years("1e300"), "9223372036854775807");
    assert_eq!(years("true"), "null");
    let r = autofill::normalize_rule_payload(js(r#"{"oils": {"older_specific": {"used": " a ", "number": " b "}}}"#));
    says(r.get("oils").unwrap().get("older_specific").unwrap(), r#"{"used": "a", "number": "b"}"#);
}

#[test]
fn rules_are_created_changed_and_deleted() {
    let rules = autofill::create_autofill_rule(vec![], js(r#"{"name": "a"}"#), "r-1", 5);
    assert_eq!(autofill::get_autofill_rule(&rules, "r-1").ok().unwrap().whole_at("created_ms"), Some(5));
    let f = autofill::get_autofill_rule(&rules, "r-2").err().unwrap();
    assert_eq!((f.status.code(), f.message.as_str()), (404, "rule not found"));
    let rules = autofill::update_autofill_rule(rules, js(r#"{"name": " b "}"#), "r-1", 9).ok().unwrap();
    let r = autofill::get_autofill_rule(&rules, "r-1").ok().unwrap();
    assert_eq!((r.text_in("name").as_str(), r.whole_at("created_ms"), r.whole_at("updated_ms")), ("b", Some(5), Some(9)));
    let f = autofill::update_autofill_rule(json_copy(&rules), js("{}"), "r-2", 9).err().unwrap();
    assert_eq!(f.status.code(), 404);
    assert_eq!(to_value(&autofill::list_autofill_rules(json_copy(&rules)))["items"].as_array().unwrap().len(), 1);
    let rules = autofill::delete_autofill_rule(rules, "r-1");
    assert!(rules.is_empty());
    assert!(autofill::delete_autofill_rule(rules, "r-1").is_empty());
}

fn json_copy(v: &Vec<Json>) -> Vec<Json> {
    garage::json::clone_all(v)
}

#[test]
fn records_are_found_by_id() {
    let l = list(r#"[{"id": "a"}, {"id": 5}, {"id": "b", "n": 1}, {"id": "b", "n": 2}]"#);
    assert_eq!(records::find_id(&l, "b"), Some(2));
    assert_eq!(records::find_id(&l, "5"), None);
    assert_eq!(text(&Json::list(records::drop_id(l, "b"))), r#"[{"id":"a"},{"id":5}]"#);
}

#[test]
fn divisions_are_listed_with_their_items() {
    let items = list(r#"[{"division_id": "d-1"}, {"division_id": "d-1"}, {"division_id": "d-2"}, {"division_id": ""}]"#);
    let r = divisions::list_divisions(
        &list(r#"[{"id": "d-1", "name": "A"}, {"id": "d-3", "description": "x"}, {"name": "no id"}, 7]"#),
        &items,
        &owned(&["d-2.png", "d-1.jpg"]),
    );
    says(
        &r,
        r#"{"items": [{"id": "d-1", "name": "A", "item_count": 2, "has_photo": true, "description": ""},
            {"id": "d-3", "description": "x", "item_count": 0, "has_photo": false},
            {"name": "no id", "item_count": 1, "has_photo": false, "description": ""}, 7]}"#,
    );
}

#[test]
fn divisions_are_created_and_changed() {
    let l = divisions::create_division(vec![], &js(r#"{"name": " Tyres "}"#), "d-1", 4).ok().unwrap();
    says(&l[0], r#"{"id": "d-1", "name": "Tyres", "created_ms": 4, "updated_ms": 4}"#);
    let f = divisions::create_division(vec![], &js(r#"{"name": "  "}"#), "d-1", 4).err().unwrap();
    assert_eq!((f.status.code(), f.message.as_str()), (400, "name is required"));
    let l = divisions::update_division(l, &js(r#"{"description": " d "}"#), "d-1", 6).ok().unwrap();
    says(&l[0], r#"{"id": "d-1", "name": "Tyres", "created_ms": 4, "updated_ms": 6, "description": "d"}"#);
    let l = divisions::update_division(l, &js(r#"{"name": "Oil", "description": ""}"#), "d-1", 7).ok().unwrap();
    says(&l[0], r#"{"id": "d-1", "name": "Oil", "created_ms": 4, "updated_ms": 7, "description": ""}"#);
    let f = divisions::update_division(json_copy(&l), &js(r#"{"name": ""}"#), "d-1", 7).err().unwrap();
    assert_eq!((f.status.code(), f.message.as_str()), (400, "name is required"));
    let f = divisions::update_division(l, &js("{}"), "d-9", 7).err().unwrap();
    assert_eq!((f.status.code(), f.message.as_str()), (404, "division not found"));
}

#[test]
fn a_division_with_items_is_not_deleted() {
    let l = list(r#"[{"id": "d-1"}, {"id": "d-2"}]"#);
    let items = list(r#"[{"division_id": "d-1"}, {"division_id": "d-1"}]"#);
    let f = divisions::delete_division(json_copy(&l), &items, "d-1").err().unwrap();
    assert_eq!(
        (f.status.code(), f.message.as_str()),
        (409, "Cannot delete: 2 item(s) still in this division. Move or delete them first.")
    );
    let left = divisions::delete_division(l, &items, "d-2").ok().unwrap();
    assert_eq!(text(&Json::list(left)), r#"[{"id":"d-1"}]"#);
}

#[test]
fn pictures_of_divisions() {
    let l = list(r#"[{"id": "d-1"}]"#);
    let (bytes, name) =
        divisions::upload_division_photo(&l, &js(r#"{"filename": "a.WEBP", "data_base64": "QQ=="}"#), "d-1").ok().unwrap();
    assert_eq!((bytes.as_slice(), name.as_str()), (&b"A"[..], "d-1.webp"));
    let f = divisions::upload_division_photo(&l, &js("{}"), "d-2").err().unwrap();
    assert_eq!((f.status.code(), f.message.as_str()), (404, "division not found"));
    let f = divisions::upload_division_photo(&l, &js("{}"), "d-1").err().unwrap();
    assert_eq!((f.status.code(), f.message.as_str()), (400, "data_base64 required"));
    let files = owned(&["x.png", "d-1.svg"]);
    assert_eq!(divisions::get_division_photo(&files, "d-/1").ok().unwrap(), (1, "image/svg+xml"));
    let f = divisions::get_division_photo(&files, "d-2").err().unwrap();
    assert_eq!((f.status.code(), f.message.as_str()), (404, "no photo"));
}

#[test]
fn items_of_the_store_are_shown_in_full() {
    let i = ItemFolder {
        id: "s-1".to_string(),
        record: js(
            r#"{"name": "Filter", "id_number": "N", "producer": "P", "description": "D", "notes": "O", "division_id": "d-1",
                "min_count": 2.9, "max_count": "5", "current_count": -1, "wheel_size": "R16", "wheel_season": "s",
                "wheel_type": "t", "wheel_pcd": "c", "wheel_et": "e", "barcodes": [" A1 ", "", 5, "a1"],
                "created_ms": 3, "updated_ms": 4}"#,
        ),
        images: owned(&["b.png", "A.png", "a.png"]),
    };
    says(
        &store::read_store_item_dir(&i),
        r#"{"id": "s-1", "name": "Filter", "id_number": "N", "producer": "P", "description": "D", "notes": "O",
            "division_id": "d-1", "min_count": 2, "max_count": 0, "current_count": -1, "wheel_size": "R16",
            "wheel_season": "s", "wheel_type": "t", "wheel_pcd": "c", "wheel_et": "e", "barcodes": ["A1", "a1"],
            "images": ["A.png", "a.png", "b.png"], "created_ms": 3, "updated_ms": 4}"#,
    );
    assert!(store::get_store_item(Some(&i)).is_ok());
    let f = store::get_store_item(None).err().unwrap();
    assert_eq!((f.status.code(), f.message.as_str()), (404, "store item not found"));
    assert_eq!(store::num_field(&js(r#"{"a": 18446744073709551615}"#), "a"), i64::MAX);
}

#[test]
fn items_are_listed_by_division() {
    let items = vec![
        item("s-1", r#"{"division_id": "d-1", "updated_ms": 1}"#),
        item("s-2", r#"{"division_id": "d-2", "updated_ms": 5}"#),
        item("s-3", r#"{"division_id": "d-1", "updated_ms": 9}"#),
    ];
    let ids = |division: Option<&str>| {
        to_value(&store::list_store_items(&items, division))["items"]
            .as_array()
            .unwrap()
            .iter()
            .map(|i| i["id"].as_str().unwrap().to_string())
            .collect::<Vec<String>>()
    };
    assert_eq!(ids(None), owned(&["s-3", "s-2", "s-1"]));
    assert_eq!(ids(Some("")), owned(&["s-3", "s-2", "s-1"]));
    assert_eq!(ids(Some("d-1")), owned(&["s-3", "s-1"]));
    assert!(ids(Some("d-9")).is_empty());
}

#[test]
fn items_are_put_in_their_proper_form() {
    let r = store::normalize_store_payload(js(
        r#"{"min_count": " 4 ", "max_count": 9.7, "current_count": "x", "barcodes": " A1,b2\na1 ,,\nC3"}"#,
    ));
    let want = r#"{"min_count": 4, "max_count": 9, "current_count": 0, "barcodes": ["A1", "b2", "C3"]}"#;
    says(&r, want);
    says(&store::normalize_store_payload(r), want);
    says(&store::normalize_store_payload(js("{}")), r#"{"barcodes": []}"#);
    says(&store::normalize_store_payload(js(r#"{"barcodes": [" x ", 5, "X", "y"]}"#)), r#"{"barcodes": ["x", "y"]}"#);
    says(&store::normalize_store_payload(js("5")), "5");
}

#[test]
fn items_are_stored() {
    says(
        &store::create_store_item(js(r#"{"name": "a"}"#), "s-1", 7),
        r#"{"name": "a", "barcodes": [], "id": "s-1", "created_ms": 7, "updated_ms": 7}"#,
    );
    says(
        &store::update_store_item(js("{}"), Some(&js(r#"{"created_ms": 2}"#)), "s-1", 9).ok().unwrap(),
        r#"{"barcodes": [], "id": "s-1", "created_ms": 2, "updated_ms": 9}"#,
    );
    let f = store::update_store_item(js("{}"), None, "s-1", 9).err().unwrap();
    assert_eq!((f.status.code(), f.message.as_str()), (404, "store item not found"));
    let (bytes, name) =
        store::upload_store_item_image(&js(r#"{"filename": "my pic.png", "data_base64": "QUI="}"#), 55).ok().unwrap();
    assert_eq!((bytes.as_slice(), name.as_str()), (&b"AB"[..], "55-mypic.png"));
    let (_, name) = store::upload_store_item_image(&js(r#"{"data_base64": ""}"#), 1).ok().unwrap();
    assert_eq!(name, "1-image.png");
    assert!(store::upload_store_item_image(&js("{}"), 1).is_err());
    says(&store::touch_item(js(r#"{"a": 1}"#), 3).unwrap(), r#"{"a": 1, "updated_ms": 3}"#);
    assert!(store::touch_item(js("[]"), 3).is_none());
    says(&store::image_answer("f"), r#"{"ok": true, "filename": "f"}"#);
}

fn shelf() -> Vec<Json> {
    store::read_all_store_items(&vec![
        item("s-1", r#"{"name": "bulb", "id_number": "B", "current_count": 5, "barcodes": ["AAA", "shared"]}"#),
        item("s-2", r#"{"name": "Axle", "current_count": 2, "barcodes": ["bbb", "SHARED"]}"#),
        item("s-3", r#"{"name": "cap", "current_count": 7, "barcodes": ["ccc"]}"#),
        item("s-4", r#"{"name": "dust", "barcodes": []}"#),
    ])
}

#[test]
fn a_full_stocktake_counts_everything() {
    let plan = stocktake::stocktake(
        "# header\n\naaa\n AAA , 3\nshared\t2\nzzz\nyyy 4\nbbb -2\nbbb x\n,,,\nzzz\r\n",
        None,
        &shelf(),
    )
    .unwrap();
    let targets: Vec<(&str, i64)> = plan.targets.iter().map(|t| (t.0.as_str(), t.1)).collect();
    assert_eq!(targets, vec![("s-1", 4), ("s-2", 4), ("s-3", 0)]);
    let report = stocktake::report_stocktake(plan, true, &vec![None, Some("gone".to_string()), None]);
    says(
        &report,
        r#"{"ok": true, "applied": true, "mode": "strict", "lines_parsed": 9, "total_scans": 14, "unique_codes": 6,
            "items_matched": 2,
            "updates": [{"id": "s-2", "name": "Axle", "id_number": "", "was": 2, "now": 4, "diff": 2},
                        {"id": "s-1", "name": "bulb", "id_number": "B", "was": 5, "now": 4, "diff": -1}],
            "unmatched": [{"code": "yyy", "count": 4}, {"code": "zzz", "count": 2}],
            "not_scanned": [{"id": "s-3", "name": "cap", "id_number": "", "was": 7, "now": 0, "diff": -7}],
            "shared_codes": ["shared"],
            "applied_writes": 2, "write_errors": ["s-2: gone"]}"#,
    );
}

#[test]
fn codes_on_several_items_are_flagged() {
    let items = list(
        r#"[{"id": "s-1", "barcodes": ["x1", "own", "own"]}, {"id": "s-2", "barcodes": [" X1 ", 5, "b"]},
            {"id": "s-3", "barcodes": ["B"]}, {"id": "s-4"}, {"id": "s-5", "barcodes": ["b", "x1"]}]"#,
    );
    let two = list(r#"[{"id": "s-1", "barcodes": ["x1"]}, {"id": "s-2", "barcodes": ["x1"]}]"#);
    let plan = stocktake::stocktake("X1 2", None, &two).unwrap();
    assert_eq!(plan.shared, vec!["x1".to_string()]);
    assert_eq!(plan.targets, vec![("s-2".to_string(), 2)]);
    let v = to_value(&stocktake::report_stocktake(plan, false, &vec![]));
    assert_eq!(v["shared_codes"], Value::Array(vec![Value::from("x1")]));
    let plan = stocktake::stocktake("", Some("partial"), &items).unwrap();
    assert_eq!(plan.shared, vec!["x1".to_string(), "b".to_string()]);
    let none = list(r#"[{"id": "s-1", "barcodes": ["x1", "x1"]}, {"id": "s-2", "barcodes": ["x2"]}]"#);
    let plan = stocktake::stocktake("x1", None, &none).unwrap();
    let v = to_value(&stocktake::report_stocktake(plan, false, &vec![]));
    assert_eq!(v["shared_codes"], Value::Array(vec![]));
}

#[test]
fn a_division_has_one_picture() {
    let files: Vec<String> =
        ["d-1.png", "d-1.webp", "d-11.png", "d-1", "e.png"].iter().map(|s| s.to_string()).collect();
    assert_eq!(divisions::old_division_photos(&files, "d-/1"), vec!["d-1.png", "d-1.webp", "d-1"]);
    assert!(divisions::old_division_photos(&files, "d-2").is_empty());
    let l = list(r#"[{"id": "d-1"}]"#);
    let (_, file) =
        divisions::upload_division_photo(&l, &js(r#"{"filename": "a.gif", "data_base64": "QQ=="}"#), "d-1").ok().unwrap();
    let gone = divisions::old_division_photos(&files, "d-1");
    let mut after: Vec<String> = files.into_iter().filter(|f| !gone.contains(f)).collect();
    after.push(file);
    assert_eq!(after, vec!["d-11.png", "e.png", "d-1.gif"]);
    assert_eq!(divisions::old_division_photos(&after, "d-1"), vec!["d-1.gif"]);
}

#[test]
fn a_partial_stocktake_leaves_the_rest() {
    let plan = stocktake::stocktake("ccc\nccc", Some(" Partial "), &shelf()).unwrap();
    assert!(!plan.strict);
    let targets: Vec<(&str, i64)> = plan.targets.iter().map(|t| (t.0.as_str(), t.1)).collect();
    assert_eq!(targets, vec![("s-3", 2)]);
    let v = to_value(&stocktake::report_stocktake(plan, false, &vec![]));
    assert_eq!(v["mode"], "partial");
    assert_eq!(v["applied"], false);
    assert_eq!(v["applied_writes"], 0);
    assert_eq!(v["not_scanned"], Value::Array(vec![]));
    assert_eq!(v["updates"][0]["diff"], -5);
}

#[test]
fn nothing_that_was_scanned_is_lost() {
    let plan = stocktake::stocktake("aaa 7\nq 2\nr\nSHARED 5\nq", Some("strict"), &shelf()).unwrap();
    let found: i64 = plan.updates.iter().map(|u| to_value(u)["now"].as_i64().unwrap()).sum();
    let stray: i64 = plan.unmatched.iter().map(|u| to_value(u)["count"].as_i64().unwrap()).sum();
    assert_eq!(found + stray, plan.total_scans);
    assert_eq!(plan.total_scans, 16);
}

#[test]
fn a_stocktake_that_does_not_fit_is_refused() {
    assert!(stocktake::stocktake("a 9223372036854775807\nb", None, &shelf()).is_none());
    assert!(stocktake::stocktake("a 9223372036854775807", None, &shelf()).is_some());
    let odd = list(r#"[{"id": "s", "current_count": -9223372036854775808, "barcodes": ["k"]}]"#);
    assert!(stocktake::stocktake("k", None, &odd).is_none());
    assert!(stocktake::stocktake("", None, &odd).is_none());
    assert!(stocktake::stocktake("", Some("partial"), &odd).is_some());
}

#[test]
fn counts_are_written_to_the_record() {
    let r = stocktake::write_store_item_count(js(r#"{"name": "a", "current_count": 1}"#), 9, 33);
    says(&r, r#"{"name": "a", "current_count": 9, "updated_ms": 33}"#);
    assert_eq!(store::num_field(&r, "current_count"), 9);
}
