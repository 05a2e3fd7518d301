use garage::json::{Json, Num};
use serde_json::Value;

fn to_json(v: &Value) -> Json {
    match v {
        Value::Null => Json::Null,
        Value::Bool(b) => Json::Bool(*b),
        Value::Number(n) => Json::Number(if let Some(u) = n.as_u64() {
            Num::PosInt(u)
        } else if let Some(i) = n.as_i64() {
            Num::NegInt(i)
        } else {
            let f = n.as_f64().unwrap();
            Num::Float { bits: f.to_bits(), trunc: f as i64 }
        }),
        Value::String(s) => Json::Str(s.clone()),
        Value::Array(a) => Json::Array(a.iter().map(to_json).collect()),
        Value::Object(o) => Json::Object(o.iter().map(|(k, v)| (k.clone(), to_json(v))).collect()),
    }
}

fn to_value(j: &Json) -> Value {
    match j {
        Json::Null => Value::Null,
        Json::Bool(b) => Value::Bool(*b),
        Json::Number(Num::PosInt(n)) => Value::from(*n),
        Json::Number(Num::NegInt(n)) => Value::from(*n),
        Json::Number(Num::Float { bits, trunc: _ }) => Value::from(f64::from_bits(*bits)),
        Json::Str(s) => Value::String(s.clone()),
        Json::Array(v) => Value::Array(v.iter().map(to_value).collect()),
        Json::Object(ms) => {
            let mut m = serde_json::Map::new();
            for (k, v) in ms.iter().rev() {
                m.insert(k.clone(), to_value(v));
            }
            Value::Object(m)
        }
    }
}

fn js(s: &str) -> Json {
    to_json(&serde_json::from_str(s).unwrap())
}

fn text(j: &Json) -> String {
    to_value(j).to_string()
}

fn says(j: &Json, s: &str) {
    assert_eq!(to_value(j), serde_json::from_str::<Value>(s).unwrap());
}

use garage::cars;
use garage::cars::CarFolder;
use garage::engine;
use garage::files::StoredFile;
use garage::jobs;
use garage::jobs::CarJobs;
use garage::oil;
use garage::oil::Fetch;
use garage::photos;
use garage::proxy;
use garage::workers;
use garage::workers::WorkerFolder;

fn file(name: &str, saved_ms: u64, doc: &str) -> StoredFile {
    StoredFile { name: name.to_string(), saved_ms, doc: js(doc) }
}

fn owned(v: &[&str]) -> Vec<String> {
    v.iter().map(|s| s.to_string()).collect()
}

fn worker(id: &str, record: &str) -> WorkerFolder {
    WorkerFolder { id: id.to_string(), record: js(record) }
}

#[test]
fn links_to_the_catalogue() {
    assert_eq!(proxy::step_a("  12 D 1 ").ok().unwrap(), "12 D 1");
    let f = proxy::step_a("   ").err().unwrap();
    assert_eq!((f.status.code(), f.message.as_str()), (400, "plate is required"));
    assert_eq!(
        proxy::step_a_link("12 D/é", 1700000000123),
        "https://www.mpmoil.ie/products/recommendation?license_plate=12%20D%2F%C3%A9&_=1700000000123"
    );
    let (plate, token) = proxy::step_b(" p ", " t ").ok().unwrap();
    assert_eq!((plate.as_str(), token.as_str()), ("p", "t"));
    let f = proxy::step_b("p", " ").err().unwrap();
    assert_eq!((f.status.code(), f.message.as_str()), (400, "plate and token are required"));
    assert_eq!(
        proxy::step_b_link("a&b", "12-D~1", 5),
        "https://www.mpmoil.ie/products/recommendation/cars/brand/model/a%26b/12-D~1?_=5"
    );
}

#[test]
fn the_token_of_a_page_is_found() {
    let page = r#"<meta name="x"><meta name="csrf-token" content="aB3=/" /><meta name="csrf-token" content="no">"#;
    assert_eq!(proxy::fetch_csrf(page).ok().unwrap(), "aB3=/");
    let f = proxy::fetch_csrf("<html></html>").err().unwrap();
    assert_eq!((f.status.code(), f.message.as_str()), (502, "csrf token not found"));
    let f = proxy::found_csrf(Err("bad".to_string())).err().unwrap();
    assert_eq!((f.status.code(), f.message.as_str()), (500, "bad"));
    assert_eq!(proxy::found_csrf(Ok(Some("t".to_string()))).ok().unwrap(), "t");
}

#[test]
fn displacement_is_read_from_the_name_of_a_variant() {
    assert_eq!(engine::extract_displacement(" Golf VI 1.4 TSI (90kW)"), "1.4");
    assert_eq!(engine::extract_displacement("V8 10.0"), "10.0");
    assert_eq!(engine::extract_displacement("x 0.5"), "0.5");
    assert_eq!(engine::extract_displacement("x 0.4"), "");
    assert_eq!(engine::extract_displacement("x 10.1"), "");
    assert_eq!(engine::extract_displacement("TDI"), "");
    assert_eq!(engine::extract_displacement("  "), "");
    assert_eq!(engine::extract_displacement("\u{661}.\u{664}"), "");
    assert_eq!(engine::extract_displacement("1.45"), "");
    assert_eq!(engine::found_displacement(Ok(Some("+.5".to_string()))), "");
    assert_eq!(engine::found_displacement(Ok(Some("2.0".to_string()))), "2.0");
    assert_eq!(engine::found_displacement(Ok(None)), "");
    assert_eq!(engine::found_displacement(Err("e".to_string())), "");
}

#[test]
fn the_engine_is_summed_up() {
    let d = js(
        r#"{"data": {"type": {"components": [
            {"name": "Gearbox", "code": "no"},
            {"name": "Engine", "code": "CJCB", "hp": 136, "kw": 100, "rpm": 4200,
             "capacities": [{"value": "5", "unit": "liters"}]},
            {"name": "Engine", "code": "later"}]}}}"#,
    );
    assert_eq!(engine::build_engine_summary(&d), "CJCB \u{b7} 136HP, 100KW, 4200RPM \u{b7} 5 L");
    let one = |c: &str| {
        engine::build_engine_summary(&js(&format!(
            r#"{{"data": {{"type": {{"components": [{}]}}}}}}"#,
            c
        )))
    };
    assert_eq!(one(r#"{"name": "Engine", "kw": 74}"#), "74KW");
    assert_eq!(one(r#"{"name": "Engine", "hp": -1, "code": "A"}"#), "A");
    assert_eq!(one(r#"{"name": "Engine", "capacities": [{"value": "5", "unit": "L"}]}"#), "5 L");
    assert_eq!(one(r#"{"name": "Engine", "capacities": [{"value": "5", "unit": "qt"}]}"#), "5 qt");
    assert_eq!(one(r#"{"name": "Engine", "capacities": [{"value": "5"}]}"#), "5");
    assert_eq!(one(r#"{"name": "Engine", "capacities": {"0": {"value": "6", "unit": "L"}}}"#), "6 L");
    assert_eq!(one(r#"{"name": "Engine", "capacities": []}"#), "");
    assert_eq!(one(r#"{"name": "Axle"}"#), "");
    assert_eq!(engine::build_engine_summary(&Json::Null), "");
    assert_eq!(
        engine::pick_oil_file(&owned(&["_step-a.json", "x.txt", "b.json", "a.json"])),
        Some(2)
    );
    assert_eq!(engine::pick_oil_file(&owned(&["_a.json"])), None);
}

#[test]
fn what_is_derived_is_written_once() {
    let car = js(r#"{"mpmoil_variant": {"name": "1.6 HDi"}, "make": "P"}"#);
    let (write, displacement) = engine::refresh_car_derived_cache(&car, "X");
    assert_eq!(displacement, "1.6");
    let written = write.unwrap();
    says(
        &written,
        r#"{"mpmoil_variant": {"name": "1.6 HDi"}, "make": "P", "engine_summary": "X", "displacement": "1.6"}"#,
    );
    assert!(engine::refresh_car_derived_cache(&written, "X").0.is_none());
    assert!(engine::refresh_car_derived_cache(&written, "Y").0.is_some());
    assert!(engine::refresh_car_derived_cache(&js("[]"), "X").0.is_none());
    assert!(engine::refresh_car_derived_cache(&js("{}"), "").0.is_none());
}

#[test]
fn a_text_is_computed_only_where_it_is_missing() {
    let d = js(r#"{"a": "x", "b": ""}"#);
    assert_eq!(engine::json_str_or_else(&d, "a", || panic!("not asked")), "x");
    assert_eq!(engine::json_str_or_else(&d, "b", || "c".to_string()), "c");
    assert_eq!(engine::json_str_or_else(&d, "z", || "c".to_string()), "c");
}

#[test]
fn cars_with_the_latest_work_come_first() {
    let cars = vec![
        CarFolder { plate: "IDLE".to_string(), car: js("null"), jobs: vec![] },
        CarFolder {
            plate: "OLD".to_string(),
            car: js(r#"{"make": "VW", "model": "Golf", "photo": "photo.png", "photo_updated_ms": 7, "fuel_type": "diesel"}"#),
            jobs: vec![
                file("a.json", 5, r#"{"status": "paused"}"#),
                file("b.json", 9, r#"{"status": "Work_Done"}"#),
                file("c.json", 5, r#"{"finished": false}"#),
            ],
        },
        CarFolder {
            plate: "NEW".to_string(),
            car: js(r#"{"customer_name": "Ann", "customer_phone": "1"}"#),
            jobs: vec![file("a.json", 50, r#"{"finished": true}"#)],
        },
    ];
    says(
        &cars::list_cars(&cars),
        r#"{"items": [
        {"plate": "NEW", "make": "", "model": "", "customer_name": "Ann", "customer_phone": "1", "fuel_type": "unknown",
         "job_count": 1, "last_job_ms": 50, "photo": null, "photo_updated_ms": 0, "open_status": null},
        {"plate": "OLD", "make": "VW", "model": "Golf", "customer_name": "", "customer_phone": "", "fuel_type": "diesel",
         "job_count": 3, "last_job_ms": 9, "photo": "photo.png", "photo_updated_ms": 7, "open_status": "open"},
        {"plate": "IDLE", "make": "", "model": "", "customer_name": "", "customer_phone": "", "fuel_type": "unknown",
         "job_count": 0, "last_job_ms": 0, "photo": null, "photo_updated_ms": 0, "open_status": null}]}"#,
    );
}

#[test]
fn the_status_shown_is_of_the_last_job_in_flight() {
    let show = |jobs: Vec<StoredFile>| {
        let c = CarFolder { plate: "P".to_string(), car: Json::Null, jobs };
        to_value(&cars::summarize_car(&c))["open_status"].clone()
    };
    assert_eq!(
        show(vec![file("a", 9, r#"{"status": "paused"}"#), file("b", 5, r#"{"status": "open"}"#)]),
        Value::from("paused")
    );
    assert_eq!(
        show(vec![file("a", 1, r#"{"status": "FINISHED"}"#), file("b", 2, r#"{"status": "closed"}"#)]),
        Value::Null
    );
    assert_eq!(show(vec![file("a", 0, "null")]), Value::from("open"));
}

#[test]
fn a_stored_car_keeps_what_the_form_does_not_hold() {
    let existing = js(
        r#"{"photo": "photo.jpg", "photo_updated_ms": 3, "created_ms": 1, "mpmoil_variant": {"name": "v"}, "fuel_type": "petrol", "make": "gone"}"#,
    );
    let r = cars::upsert_car(js(r#"{"model": "Polo", "created_ms": 2}"#), &existing, "12-D", 99);
    says(
        &r,
        r#"{"model": "Polo", "plate": "12-D", "updated_ms": 99, "photo": "photo.jpg", "photo_updated_ms": 3,
            "created_ms": 2, "mpmoil_variant": {"name": "v"}, "fuel_type": "petrol"}"#,
    );
    says(
        &cars::upsert_car(js("{}"), &Json::Null, "X", 1),
        r#"{"plate": "X", "updated_ms": 1, "fuel_type": "unknown"}"#,
    );
    says(
        &cars::upsert_car(js(r#"{"fuel_type": null}"#), &existing, "X", 1).get("fuel_type").unwrap().clone(),
        "null",
    );
    says(&cars::upsert_car(js("[1]"), &existing, "X", 1), "[1]");
    says(&cars::car_answer("X"), r#"{"ok": true, "plate": "X"}"#);
}

#[test]
fn content_types_of_pictures() {
    assert_eq!(photos::photo_content_type("PNG"), "image/png");
    assert_eq!(photos::photo_content_type("jpg"), "image/jpeg");
    assert_eq!(photos::photo_content_type("jpeg"), "image/jpeg");
    assert_eq!(photos::photo_content_type("webp"), "image/webp");
    assert_eq!(photos::photo_content_type("gif"), "image/gif");
    assert_eq!(photos::photo_content_type("svg"), "application/octet-stream");
    assert_eq!(photos::picture_content_type("SVG"), "image/svg+xml");
    assert_eq!(photos::picture_content_type("jpeg"), "image/jpeg");
    assert_eq!(photos::picture_content_type(""), "application/octet-stream");
    assert_eq!(photos::file_content_type("d-1.webp"), "image/webp");
    assert_eq!(photos::file_content_type("d-1"), "application/octet-stream");
}

#[test]
fn photos_are_uploaded() {
    let (bytes, name) =
        photos::upload_photo(&js(r#"{"filename": "Car.JPEG", "data_base64": "data:image/jpeg;base64, QUJD \n"}"#))
            .ok()
            .unwrap();
    assert_eq!((bytes.as_slice(), name.as_str()), (&b"ABC"[..], "photo.jpeg"));
    let (bytes, name) = photos::upload_photo(&js(r#"{"data_base64": ""}"#)).ok().unwrap();
    assert_eq!((bytes.len(), name.as_str()), (0, "photo.jpg"));
    let (_, name) = photos::upload_photo(&js(r#"{"filename": "x.svg", "data_base64": "QQ=="}"#)).ok().unwrap();
    assert_eq!(name, "photo.jpg");
    let (_, name) =
        photos::upload_picture(&js(r#"{"filename": "x.SVG", "data_base64": "QQ=="}"#), "a.png", "d-1").ok().unwrap();
    assert_eq!(name, "d-1.svg");
    let (_, name) = photos::upload_picture(&js(r#"{"data_base64": "QQ=="}"#), "logo.png", "logo").ok().unwrap();
    assert_eq!(name, "logo.png");
    let f = photos::upload_photo(&js("{}")).err().unwrap();
    assert_eq!((f.status.code(), f.message.as_str()), (400, "data_base64 required"));
    let f = photos::upload_bytes(&js(r#"{"data_base64": "!!"}"#)).err().unwrap();
    assert_eq!(f.status.code(), 400);
    assert!(f.message.contains("Invalid"));
    let f = photos::accept_decoded(Err("no".to_string())).err().unwrap();
    assert_eq!((f.status.code(), f.message.as_str()), (400, "no"));
    assert_eq!(photos::photo_extension("dir/../pic.Png"), "png");
    assert_eq!(photos::picture_extension("noext"), "png");
}

#[test]
fn the_photo_of_a_record() {
    let car = photos::set_photo(None, "plate", "X", "photo.png", 5);
    says(&car, r#"{"plate": "X", "photo": "photo.png", "photo_updated_ms": 5, "updated_ms": 5}"#);
    assert_eq!(photos::photo_file(&car), Some("photo.png".to_string()));
    assert!(photos::is_photo_file("photo.png"));
    assert!(photos::is_photo_file("thumb.jpg"));
    assert!(!photos::is_photo_file("car.json"));
    let (name, mime) = photos::get_photo(&car).ok().unwrap();
    assert_eq!((name.as_str(), mime), ("photo.png", "image/png"));
    let cleared = photos::clear_photo(car, 9).unwrap();
    says(&cleared, r#"{"plate": "X", "updated_ms": 9}"#);
    let f = photos::get_photo(&cleared).err().unwrap();
    assert_eq!((f.status.code(), f.message.as_str()), (404, "no photo"));
    assert!(photos::clear_photo(js("3"), 9).is_none());
    says(&photos::photo_answer("photo.png", 5), r#"{"ok": true, "filename": "photo.png", "photo_updated_ms": 5}"#);
}

#[test]
fn thumbnails_are_small_jpegs() {
    let mut png = std::io::Cursor::new(Vec::new());
    image::DynamicImage::ImageRgb8(image::RgbImage::new(800, 200))
        .write_to(&mut png, image::ImageFormat::Png)
        .unwrap();
    let small = photos::generate_thumbnail(png.get_ref()).unwrap();
    assert_eq!(&small[..2], &[0xff, 0xd8]);
    assert_eq!(&small[small.len() - 2..], &[0xff, 0xd9]);
    assert_eq!(small[27] as usize * 256 + small[28] as usize, 400);
    assert_eq!(small[25] as usize * 256 + small[26] as usize, 100);
    assert_eq!(small[44], 11);
    let again = image::load_from_memory(&small).unwrap();
    assert_eq!((again.width(), again.height()), (400, 100));
    assert!(photos::generate_thumbnail(b"no image").is_err());
    assert!(photos::generate_thumbnail(b"").is_err());
}

#[test]
fn the_oil_archive_is_listed_by_title() {
    let r = oil::list_car_oils(&vec![
        file("b.json.json", 5, "null"),
        file("x.json", 6, r#"{"title": "a"}"#),
        file("y.json", 7, r#"{"title": "B"}"#),
    ]);
    says(
        &r,
        r#"{"items": [{"name": "y.json", "title": "B", "saved_ms": 7},
            {"name": "x.json", "title": "a", "saved_ms": 6},
            {"name": "b.json.json", "title": "b", "saved_ms": 5}]}"#,
    );
    assert_eq!(oil::save_car_oil(&js("{}"), 12), "oil-12.json");
    assert_eq!(oil::save_car_oil(&js(r#"{"file_name": "my oil.JSON"}"#), 12), "myoil.JSON");
    says(&oil::oil_answer("f.json"), r#"{"ok": true, "file_name": "f.json"}"#);
}

#[test]
fn variants_are_found_in_an_answer() {
    let all = |s: &str| text(&Json::list(oil::extract_variants(&js(s))));
    assert_eq!(all("[1,2]"), "[1,2]");
    assert_eq!(all(r#"{"data": [3], "variants": [2]}"#), "[2]");
    assert_eq!(all(r#"{"types": [5], "items": "no"}"#), "[5]");
    assert_eq!(all(r#"{"b": [{"k": 1}], "a": [1], "c": [{"k": 2}]}"#), r#"[{"k":1}]"#);
    assert_eq!(all(r#"{"b": [{"k": 1}], "a": []}"#), "[]");
    assert_eq!(all(r#"{"z": 1}"#), "[]");
    assert_eq!(all("7"), "[]");
}

#[test]
fn variants_have_a_token_and_a_label() {
    let v = js(r#"{"slug": "s", "id": 5, "title": "T"}"#);
    assert_eq!(oil::variant_token(&v), Some("s".to_string()));
    assert_eq!(oil::variant_label(&v), "T");
    let v = js(r#"{"id": -5}"#);
    assert_eq!(oil::variant_token(&v), Some("-5".to_string()));
    assert_eq!(oil::variant_label(&v), "-5");
    let v = js(r#"{"slug_or_id": null, "id": 5, "name": 3}"#);
    assert_eq!(oil::variant_token(&v), None);
    assert_eq!(oil::variant_label(&v), "variant");
    let (token, link) = oil::ask_variant(&js(r#"{"code": "a b"}"#), "P", 3).unwrap();
    assert_eq!(token, "a b");
    assert_eq!(link, proxy::step_b_link("a b", "P", 3));
    assert!(oil::ask_variant(&js("{}"), "P", 3).is_none());
}

#[test]
fn fetched_recommendations_are_reported() {
    let ok = js(r#"{"id": 1, "name": "1.4 TSI"}"#);
    let lost = js(r#"{"id": 2, "name": "lost"}"#);
    let bad = js(r#"{"id": 3, "name": "bad"}"#);
    let none = js(r#"{"name": "none"}"#);
    assert_eq!(oil::snapshot_file(&vec![js(r#"{"name": "///"}"#)], 0), "untitled.json");
    says(
        &oil::snapshot_record(&ok, "1", "P", js("[8]"), 77),
        r#"{"title": "1.4 TSI", "token": "1", "plate": "P", "fetched_ms": 77, "variant": {"id": 1, "name": "1.4 TSI"}, "data": [8]}"#,
    );
    let r = oil::fetch_all_car_oils(
        &vec![ok, lost, bad, none],
        &vec![Fetch::Written, Fetch::Unwritten, Fetch::Failed("down".to_string()), Fetch::Written],
    );
    says(
        &r,
        r#"{"ok": true, "variants_found": 4,
            "saved": [{"file_name": "1.4TSI.json", "title": "1.4 TSI"}],
            "errors": [{"token": "3", "title": "bad", "error": "down"},
                       {"variant": {"name": "none"}, "error": "no token"}]}"#,
    );
}

#[test]
fn each_recommendation_has_a_file_of_its_own() {
    let names = |variants: &[&str]| {
        let all: Vec<Json> = variants.iter().map(|v| js(v)).collect();
        (0..all.len()).map(|i| oil::snapshot_file(&all, i)).collect::<Vec<String>>()
    };
    assert_eq!(
        names(&[r#"{"name": "2.0 TDI", "id": "a"}"#, r#"{"name": "2.0 TDI", "id": "b"}"#]),
        vec!["2.0TDI--a.json", "2.0TDI--b.json"]
    );
    assert_eq!(
        names(&[r#"{"name": "1.4 TSI", "id": 1}"#, r#"{"name": "1.6", "id": 2}"#, r#"{"name": "1.6"}"#]),
        vec!["1.4TSI.json", "1.6.json", "1.6--.json"]
    );
    assert_eq!(
        names(&[r#"{"name": "A", "id": "x/y"}"#, r#"{"name": "a b", "id": "x"}"#, r#"{"name": "A/", "id": "xy-"}"#]),
        vec!["A--x_00002fy.json", "ab.json", "A--xy_00002d.json"]
    );
    assert_eq!(
        names(&[r#"{"name": "A", "id": 1}"#, r#"{"name": "A", "id": 2}"#, r#"{"name": "A--1", "id": 3}"#]),
        vec!["A--1.json", "A--2.json", "A--1--3.json"]
    );
    assert_eq!(
        names(&[r#"{"name": "A", "id": 1}"#, r#"{"name": "A", "id": "1"}"#]),
        vec!["A.json", "A.json"]
    );
    assert_eq!(names(&[r#"{"name": "_step-a", "id": 1}"#]), vec!["_step-a--1.json"]);
}

#[test]
fn the_jobs_of_a_car_are_listed() {
    let r = jobs::list_car_jobs(&vec![
        file("P_1.json", 1, r#"{"date_in": "d", "time_in": "i", "time_out": "o", "kilometrage": "90", "status": "open",
            "work": [{"description": "oil"}, {"x": 1}, {"description": "tyres"}]}"#),
        file("P_2.json", 2, r#"{"finished": true, "work": 5}"#),
    ]);
    says(
        &r,
        r#"{"items": [
        {"name": "P_2.json", "saved_ms": 2, "date_in": "", "time_in": "", "time_out": "", "work_summary": "", "kilometrage": "", "status": "finished"},
        {"name": "P_1.json", "saved_ms": 1, "date_in": "d", "time_in": "i", "time_out": "o", "work_summary": "oil; tyres", "kilometrage": "90", "status": "open"}]}"#,
    );
}

#[test]
fn the_next_job_has_the_next_number() {
    let next = |names: &[&str]| jobs::next_job_name("12-D", &owned(names));
    assert_eq!(next(&[]), Some("12-D_1".to_string()));
    assert_eq!(
        next(&["12-D_2.json", "12-D_10.json", "12-D_99.txt", "X_500.json", "12-D_x.json", "12-D_+11.json"]),
        Some("12-D_12".to_string())
    );
    assert_eq!(next(&["12-D_18446744073709551615.json"]), None);
    assert_eq!(next(&["12-D_18446744073709551616.json"]), Some("12-D_1".to_string()));
}

#[test]
fn jobs_are_saved() {
    let (file, record) = jobs::save_car_job(js(r#"{"a": 1}"#), "P", &owned(&["P_4.json"])).unwrap();
    assert_eq!(file, "P_5.json");
    says(&record, r#"{"a": 1, "plate": "P", "file_name": "P_5.json"}"#);
    let (file, _) = jobs::save_car_job(js(r#"{"file_name": "my job"}"#), "P", &owned(&[])).unwrap();
    assert_eq!(file, "myjob.json");
    assert!(jobs::save_car_job(js("{}"), "P", &owned(&["P_18446744073709551615.json"])).is_none());
    says(&jobs::job_answer("f", "P"), r#"{"ok": true, "file_name": "f", "plate": "P"}"#);
    says(
        &jobs::start_car(&js(r#"{"vehicle": {"make": "VW", "reg_no": "12 D"}, "customer_name": "Ann"}"#), "12D", "auto-from-job", 4),
        r#"{"plate": "12D", "reg_no": "12 D", "make": "VW", "model": "", "customer_name": "Ann", "customer_phone": "",
            "created_ms": 4, "updated_ms": 4, "source": "auto-from-job"}"#,
    );
    assert_eq!(jobs::start_car(&js("{}"), "12D", "s", 4).text_in("reg_no"), "12D");
    says(&jobs::count_all_jobs(&owned(&["a.json", "b.txt", "c.json"])), r#"{"count": 2}"#);
}

#[test]
fn all_jobs_are_listed_with_car_and_worker() {
    let staff = vec![
        worker("w-1", r#"{"first_name": " Ann ", "last_name": "Lee"}"#),
        worker("w-2", r#"{"first_name": " "}"#),
    ];
    let cars = vec![
        CarJobs {
            plate: "A".to_string(),
            car: js(r#"{"make": "VW", "photo": " ", "mpmoil_variant": {"name": "2.0 TDI"}}"#),
            recommendation: js(r#"{"data": {"type": {"components": [{"name": "Engine", "code": "Q"}]}}}"#),
            jobs: vec![file("A_1.json", 5, r#"{"worker_id": "w-1", "status": "open", "kilometrage": "7"}"#)],
        },
        CarJobs {
            plate: "B".to_string(),
            car: js(r#"{"displacement": "9.9", "engine_summary": "E", "photo": "photo.png", "photo_updated_ms": 3}"#),
            recommendation: Json::Null,
            jobs: vec![
                file("B_1.json", 9, r#"{"worker_id": "w-2", "finished": true}"#),
                file("B_2.json", 1, r#"{"worker_id": "w-9"}"#),
                file("B_3.json", 0, "null"),
            ],
        },
    ];
    let v = to_value(&jobs::list_all_jobs(&cars, &staff));
    let items = v["items"].as_array().unwrap();
    let pick = |k: &str| items.iter().map(|i| i[k].clone()).collect::<Vec<Value>>();
    assert_eq!(pick("name"), vec!["B_1.json", "A_1.json", "B_2.json", "B_3.json"]);
    assert_eq!(pick("worker_name"), vec!["w-2", "Ann Lee", "w-9", ""]);
    assert_eq!(pick("status"), vec!["finished", "open", "open", "open"]);
    assert_eq!(pick("displacement"), vec!["9.9", "2.0", "9.9", "9.9"]);
    assert_eq!(pick("engine_summary"), vec!["E", "Q", "E", "E"]);
    assert_eq!(pick("has_photo"), vec![true, false, true, true]);
    assert_eq!(pick("photo_updated_ms"), vec![3, 0, 3, 3]);
    assert_eq!(pick("last_active_ms"), pick("saved_ms"));
    assert_eq!(pick("kilometrage"), vec!["", "7", "", ""]);
    assert_eq!(pick("fuel_type"), vec!["unknown", "unknown", "unknown", "unknown"]);
    assert_eq!(items[0].as_object().unwrap().len(), 20);
}

#[test]
fn workers_are_listed_without_passwords() {
    let r = workers::list_workers(&vec![
        worker("w-1", r#"{"first_name": "Ann", "created_ms": 1, "password": "p"}"#),
        worker("w-2", r#"{"photo": "photo.png", "photo_updated_ms": 4, "created_ms": 2, "updated_ms": 3, "password": ""}"#),
    ]);
    says(
        &r,
        r#"{"items": [
        {"id": "w-2", "first_name": "", "last_name": "", "patronymic": "", "phone": "", "photo": "photo.png",
         "photo_updated_ms": 4, "created_ms": 2, "updated_ms": 3, "has_password": false},
        {"id": "w-1", "first_name": "Ann", "last_name": "", "patronymic": "", "phone": "", "photo": null,
         "photo_updated_ms": 0, "created_ms": 1, "updated_ms": 0, "has_password": true}]}"#,
    );
}

#[test]
fn workers_are_stored() {
    says(
        &workers::create_worker(js(r#"{"first_name": "Ann"}"#), "w-5", 9),
        r#"{"first_name": "Ann", "id": "w-5", "created_ms": 9, "updated_ms": 9}"#,
    );
    let existing = js(r#"{"created_ms": 1, "photo": "photo.jpg", "password": "old"}"#);
    says(
        &workers::update_worker(js(r#"{"phone": "1"}"#), Some(&existing), "w-5", 20).ok().unwrap(),
        r#"{"phone": "1", "id": "w-5", "created_ms": 1, "updated_ms": 20, "photo": "photo.jpg", "password": ""}"#,
    );
    says(
        &workers::update_worker(js(r#"{"password": "new"}"#), Some(&Json::Null), "w-5", 20).ok().unwrap(),
        r#"{"id": "w-5", "created_ms": 20, "updated_ms": 20, "password": "new"}"#,
    );
    let f = workers::update_worker(js("{}"), None, "w-5", 20).err().unwrap();
    assert_eq!((f.status.code(), f.message.as_str()), (404, "worker not found"));
    says(&garage::failure::id_answer("w-5"), r#"{"ok": true, "id": "w-5"}"#);
}

#[test]
fn signing_in_takes_the_right_password() {
    let record = js(r#"{"password": "pw", "first_name": "Ann", "last_name": "Lee", "patronymic": "X"}"#);
    let right = js(r#"{"worker_id": " w-1 ", "password": "pw"}"#);
    assert_eq!(workers::auth_worker(&right).ok().unwrap(), "w-1");
    says(
        &workers::auth_login(&right, Some(&record)).ok().unwrap(),
        r#"{"ok": true, "worker": {"id": "w-1", "first_name": "Ann", "last_name": "Lee", "patronymic": "X"}}"#,
    );
    let wrong = js(r#"{"worker_id": "w-1", "password": "PW"}"#);
    let a = workers::auth_login(&wrong, Some(&record)).err().unwrap();
    let b = workers::auth_login(&right, None).err().unwrap();
    assert_eq!((a.status.code(), a.message.as_str()), (401, "invalid credentials"));
    assert_eq!((b.status.code(), b.message.as_str()), (401, "invalid credentials"));
    let f = workers::auth_login(&js(r#"{"worker_id": " "}"#), Some(&record)).err().unwrap();
    assert_eq!((f.status.code(), f.message.as_str()), (400, "worker_id required"));
    assert!(workers::auth_login(&js(r#"{"worker_id": "w-1"}"#), Some(&js("{}"))).is_ok());
}

#[test]
fn the_extension_is_that_of_the_last_part() {
    assert_eq!(photos::photo_extension("a.gif/b.webp"), "webp");
    assert_eq!(photos::photo_extension("a.gif/b"), "jpg");
    assert_eq!(photos::picture_extension("/x/.hidden"), "png");
    assert_eq!(photos::picture_extension(".."), "png");
}

#[test]
fn a_saved_job_is_kept_as_it_was_sent() {
    let sent = js(r#"{"status": "open", "work": [1], "plate": "old"}"#);
    let (_, record) = jobs::save_car_job(sent.clone(), "P", &owned(&[])).unwrap();
    assert_eq!(to_value(&record)["work"], to_value(&sent)["work"]);
    assert_eq!(record.text_in("plate"), "P");
    let (again, _) = jobs::save_car_job(sent, "P", &owned(&["P_1.json"])).unwrap();
    assert_eq!(again, "P_2.json");
}

#[test]
fn a_new_worker_signs_in() {
    let record = workers::create_worker(js(r#"{"password": "x"}"#), "w-7", 1);
    assert!(workers::auth_login(&js(r#"{"worker_id": "w-7", "password": "x"}"#), Some(&record)).is_ok());
    assert!(workers::auth_login(&js(r#"{"worker_id": "w-7", "password": "y"}"#), Some(&record)).is_err());
}

#[test]
fn an_edit_of_a_record_does_not_move_a_car() {
    let show = |car: &str| {
        let c = CarFolder { plate: "P".to_string(), car: js(car), jobs: vec![file("a.json", 8, "{}")] };
        to_value(&cars::summarize_car(&c))["last_job_ms"].clone()
    };
    assert_eq!(show("{}"), 8);
    assert_eq!(show(r#"{"updated_ms": 99, "last_job_ms": 5}"#), 8);
}

#[test]
fn every_image_that_was_decoded_is_shrunk() {
    for (w, h) in [(1, 1), (0, 0), (1, 5000), (3000, 2), (400, 400)] {
        for img in [
            image::DynamicImage::new_rgb8(w, h),
            image::DynamicImage::new_luma16(w, h),
            image::DynamicImage::new_rgba8(w, h),
        ] {
            let small = photos::shrink_decoded(Ok(img)).unwrap();
            let again = image::load_from_memory(&small).unwrap();
            assert!(again.width() <= 400 && again.height() <= 400);
            assert_eq!(small[44], 11);
        }
    }
    assert_eq!(photos::shrink_decoded(Err("no image".to_string())), Err("no image".to_string()));
}

#[test]
fn images_that_are_too_large_are_not_shrunk() {
    assert!(photos::is_shrinkable(0, 0));
    assert!(photos::is_shrinkable(100_000, 700));
    assert!(photos::is_shrinkable(1, 4_294_967_295));
    assert!(photos::is_shrinkable(23_170, 23_170));
    assert!(!photos::is_shrinkable(2, 3_500_000_000));
    assert!(!photos::is_shrinkable(3_500_000_000, 2));
}

fn small_jpeg(img: &image::DynamicImage) -> Vec<u8> {
    let rgb = img.thumbnail(400, 400).to_rgb8();
    let mut out = Vec::new();
    image::codecs::jpeg::JpegEncoder::new_with_quality(&mut out, 65)
        .encode(rgb.as_raw(), rgb.width(), rgb.height(), image::ExtendedColorType::Rgb8)
        .unwrap();
    out
}

#[test]
fn samples_of_16_bits_are_averaged_in_full() {
    let img = image::ImageBuffer::from_fn(104_800, 250, |x, y| {
        image::Luma([((x / 7) ^ (y * 211)).wrapping_mul(2_654_435_761) as u16])
    });
    let img = image::DynamicImage::ImageLuma16(img);
    let want = small_jpeg(&img);
    assert!(photos::shrink_decoded(Ok(img)) == Ok(want));
}

#[test]
fn colours_of_16_bits_are_averaged_in_full() {
    let img = image::ImageBuffer::from_fn(104_800, 250, |x, y| {
        image::Rgb([(x / 2) as u16, (y * 250) as u16, ((x ^ y) % 65_536) as u16])
    });
    let img = image::DynamicImage::ImageRgb16(img);
    let want = small_jpeg(&img);
    assert!(photos::shrink_decoded(Ok(img)) == Ok(want));
}

#[test]
fn no_sum_of_samples_is_too_large() {
    let img = image::ImageBuffer::from_pixel(1, 26_300_000, image::Luma([u16::MAX]));
    let small = photos::shrink_decoded(Ok(image::DynamicImage::ImageLuma16(img))).unwrap();
    let again = image::load_from_memory(&small).unwrap().to_luma8();
    assert_eq!(again.dimensions(), (1, 400));
    assert!(again.pixels().all(|p| p.0[0] > 250));
    assert!(photos::shrink_decoded(Ok(image::DynamicImage::new_luma8(1, 26_300_000))).is_ok());
}

#[test]
fn a_thumbnail_shows_its_image() {
    let shrink = |shade: u8| {
        let img = image::GrayImage::from_pixel(900, 600, image::Luma([shade]));
        photos::shrink_decoded(Ok(image::DynamicImage::ImageLuma8(img))).unwrap()
    };
    let dark = image::load_from_memory(&shrink(20)).unwrap().to_luma8();
    let light = image::load_from_memory(&shrink(230)).unwrap().to_luma8();
    assert_eq!(dark.dimensions(), (400, 267));
    assert!(dark.pixels().all(|p| p.0[0] < 40));
    assert!(light.pixels().all(|p| p.0[0] > 210));
    assert_eq!(shrink(20), shrink(20));
}
