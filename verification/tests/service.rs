use garage::json::{Json, Num};
use serde_json::Value;

fn to_json(v: &Value) -> Json {
    match v {
        Value::Null => Json::Null,
        Value::Bool(b) => Json::Bool(*b),
        Value::Number(n) => Json::Number(if let Some(u) = n.as_u64() {
            Num::PosInt(u)
        } else if let Some(i) = n.as_i64() {
            Num::NegInt(i)
        } else {
            let f = n.as_f64().unwrap();
            Num::Float { bits: f.to_bits(), trunc: f as i64 }
        }),
        Value::String(s) => Json::Str(s.clone()),
        Value::Array(a) => Json::Array(a.iter().map(to_json).collect()),
        Value::Object(o) => Json::Object(o.iter().map(|(k, v)| (k.clone(), to_json(v))).collect()),
    }
}

fn to_value(j: &Json) -> Value {
    match j {
        Json::Null => Value::Null,
        Json::Bool(b) => Value::Bool(*b),
        Json::Number(Num::PosInt(n)) => Value::from(*n),
        Json::Number(Num::NegInt(n)) => Value::from(*n),
        Json::Number(Num::Float { bits, trunc: _ }) => Value::from(f64::from_bits(*bits)),
        Json::Str(s) => Value::String(s.clone()),
        Json::Array(v) => Value::Array(v.iter().map(to_value).collect()),
        Json::Object(ms) => {
            let mut m = serde_json::Map::new();
            for (k, v) in ms.iter().rev() {
                m.insert(k.clone(), to_value(v));
            }
            Value::Object(m)
        }
    }
}

fn js(s: &str) -> Json {
    to_json(&serde_json::from_str(s).unwrap())
}

fn text(j: &Json) -> String {
    to_value(j).to_string()
}

fn says(j: &Json, s: &str) {
    assert_eq!(to_value(j), serde_json::from_str::<Value>(s).unwrap());
}

use garage::chat;
use garage::files::StoredFile;
use garage::migrate;
use garage::migrate::RulesMove;
use garage::scanner;
use garage::scanner::{Registration, ScanBody, Seed};
use garage::settings;

fn owned(v: &[&str]) -> Vec<String> {
    v.iter().map(|s| s.to_string()).collect()
}

fn list(s: &str) -> Vec<Json> {
    match js(s) {
        Json::Array(v) => v,
        _ => panic!("no list"),
    }
}

fn copy(v: &Vec<Json>) -> Vec<Json> {
    garage::json::clone_all(v)
}

fn job(saved_ms: u64, doc: &str) -> StoredFile {
    StoredFile { name: "j.json".to_string(), saved_ms, doc: js(doc) }
}

#[test]
fn closed_jobs_become_work_done() {
    let c = migrate::migrate_job(js(r#"{"status": "closed", "events": [{"type": "open"}, {"type": "closed", "t": 1}]}"#), 50).unwrap();
    says(
        &c.record,
        r#"{"status": "work_done", "events": [{"type": "open"}, {"type": "work_done", "t": 1}], "work_done_ms": 50}"#,
    );
    assert_eq!((c.status_rewritten, c.events_touched, c.stamped), (true, 1, true));
    let c = migrate::migrate_job(js(r#"{"finished": true}"#), 0).unwrap();
    says(&c.record, r#"{"finished": true, "status": "work_done"}"#);
    let c = migrate::migrate_job(
        js(r#"{"status": "open", "events": [{"type": "work_done"}, {"type": "closed"}, 5, {"type": "closed"}]}"#),
        9,
    )
    .unwrap();
    says(&c.record, r#"{"status": "open", "events": [{"type": "work_done"}, 5]}"#);
    assert_eq!((c.status_rewritten, c.events_touched, c.stamped), (false, 2, false));
    let c = migrate::migrate_job(js(r#"{"status": "work_done", "work_done_ms": 0}"#), 9).unwrap();
    says(&c.record, r#"{"status": "work_done", "work_done_ms": 9}"#);
    assert!(migrate::migrate_job(js(r#"{"status": "work_done", "work_done_ms": 4}"#), 9).is_none());
    assert!(migrate::migrate_job(js(r#"{"status": "Closed"}"#), 9).is_none());
    assert!(migrate::migrate_job(js("{}"), 9).is_none());
    assert!(migrate::migrate_job(js("[]"), 9).is_none());
}

#[test]
fn a_second_start_migrates_nothing() {
    for s in [
        r#"{"status": "finished"}"#,
        r#"{"finished": true, "events": [{"type": "closed"}]}"#,
        r#"{"status": "paused", "events": [{"type": "closed"}, {"type": "work_done"}]}"#,
    ] {
        let c = migrate::migrate_job(js(s), 5).unwrap();
        assert!(migrate::migrate_job(c.record, 77).is_none());
    }
}

#[test]
fn migrations_are_counted() {
    let m = migrate::migrate_job_statuses(&vec![
        job(5, r#"{"status": "closed"}"#),
        job(5, r#"{"status": "open"}"#),
        job(0, r#"{"status": "finished", "events": [{"type": "closed"}]}"#),
    ])
    .unwrap();
    let places: Vec<usize> = m.writes.iter().map(|w| w.0).collect();
    assert_eq!(places, vec![0, 2]);
    assert_eq!((m.status_rewrites, m.events_touched, m.stamps), (2, 1, 1));
}

#[test]
fn fuels_are_filled_in() {
    let (r, missing) = migrate::backfill_fuel_type(js(r#"{"a": 1}"#)).unwrap();
    says(&r, r#"{"a": 1, "fuel_type": "unknown"}"#);
    assert!(missing);
    assert!(migrate::backfill_fuel_type(r).is_none());
    let (r, missing) = migrate::backfill_fuel_type(js(r#"{"fuel_type": "hybrid"}"#)).unwrap();
    says(&r, r#"{"fuel_type": "petrol-electric"}"#);
    assert!(!missing);
    assert!(migrate::backfill_fuel_type(r).is_none());
    assert!(migrate::backfill_fuel_type(js(r#"{"fuel_type": "diesel"}"#)).is_none());
    assert!(migrate::backfill_fuel_type(js("3")).is_none());
}

#[test]
fn the_old_database_is_taken_over() {
    let j = js(r#"{"vehicle": {"reg_no": "12 d 7", "make": "VW"}, "customer_name": "Ann"}"#);
    assert_eq!(migrate::legacy_plate(&j), "12D7");
    assert_eq!(migrate::legacy_plate(&js("{}")), "UNKNOWN");
    let (write, car) = migrate::migrate_legacy_database(&j, false, false, 8);
    assert!(write);
    says(
        &car.unwrap(),
        r#"{"plate": "12D7", "reg_no": "12 d 7", "make": "VW", "model": "", "customer_name": "", "customer_phone": "",
            "created_ms": 8, "updated_ms": 8, "source": "migrated"}"#,
    );
    let (write, car) = migrate::migrate_legacy_database(&j, true, true, 8);
    assert!(!write && car.is_none());
}

#[test]
fn the_rules_are_moved_once() {
    assert!(matches!(migrate::migrate_autofill_location(false, false, false), RulesMove::Nothing));
    assert!(matches!(migrate::migrate_autofill_location(false, true, true), RulesMove::DropDirectory));
    assert!(matches!(migrate::migrate_autofill_location(true, true, true), RulesMove::DropOld));
    assert!(matches!(migrate::migrate_autofill_location(true, true, false), RulesMove::Move));
}

#[test]
fn settings_have_defaults() {
    let d = to_value(&settings::get_settings(None, true));
    assert_eq!(d.as_object().unwrap().len(), 28);
    assert_eq!(d["company_name"], "");
    assert_eq!(d["screensaver_idle_minutes"], 10);
    assert_eq!(d["screensaver_bg_color"], "#000000");
    assert_eq!(d["chat_autoclose_screensaver_pct"], 30);
    assert_eq!(d["chat_autoclose_fallback_minutes"], 2);
    assert_eq!(d["chat_sound_volume"], 60);
    assert_eq!(d["backup_auto_schedule"], "daily");
    assert_eq!(d["work_day_start_hhmm"], "09:00");
    assert_eq!(d["work_day_end_hhmm"], "18:00");
    assert_eq!(d["work_lunch_start_hhmm"], "13:00");
    assert_eq!(d["work_lunch_end_hhmm"], "14:00");
    assert_eq!(d["has_logo"], true);
    assert_eq!(to_value(&settings::settings_defaults()).as_object().unwrap().len(), 27);
}

#[test]
fn some_settings_are_changed() {
    let stored = js(r#"{"company_name": "Garage", "extra": 1}"#);
    let next = settings::update_settings(
        Some(&stored),
        js(r#"{"has_logo": true, "chat_sound_volume": " 80 ", "chat_retention_days": "x", "screensaver_idle_minutes": "-5", "company_phone": "5"}"#),
    );
    let v = to_value(&next);
    assert_eq!(v["company_name"], "Garage");
    assert_eq!(v["extra"], 1);
    assert_eq!(v["chat_sound_volume"], 80);
    assert_eq!(v["chat_retention_days"], "x");
    assert_eq!(v["screensaver_idle_minutes"], -5);
    assert_eq!(v["company_phone"], "5");
    assert!(v.get("has_logo").is_none());
    let shown = to_value(&settings::get_settings(Some(&next), false));
    assert_eq!(shown["chat_sound_volume"], 80);
    assert_eq!(shown["has_logo"], false);
    let same = settings::update_settings(Some(&stored), js("[1]"));
    assert_eq!(to_value(&same)["company_name"], "Garage");
}

#[test]
fn the_time_of_the_last_backup_is_not_set() {
    let v = to_value(&settings::update_settings(None, js(r#"{"backup_last_ms": 5, "company_phone": "1"}"#)));
    assert_eq!(v["backup_last_ms"], 0);
    assert_eq!(v["company_phone"], "1");
    let stored = js(r#"{"backup_last_ms": 77}"#);
    let v = to_value(&settings::update_settings(Some(&stored), js(r#"{"backup_last_ms": "5"}"#)));
    assert_eq!(v["backup_last_ms"], 77);
}

#[test]
fn there_is_one_logo() {
    let files = owned(&["settings.json", "logo.png", "LOGO.jpg", "logos.png"]);
    let gone = settings::old_settings_logos(&files);
    assert_eq!(gone, owned(&["logo.png", "LOGO.jpg"]));
    let (_, file) =
        settings::upload_settings_logo(&js(r#"{"filename": "new.WEBP", "data_base64": "QQ=="}"#)).ok().unwrap();
    let mut after: Vec<String> = files.into_iter().filter(|f| !gone.contains(f)).collect();
    after.push(file);
    assert_eq!(after, owned(&["settings.json", "logos.png", "logo.webp"]));
    assert_eq!(settings::old_settings_logos(&after), owned(&["logo.webp"]));
    assert!(settings::old_settings_logos(&vec![]).is_empty());
}

#[test]
fn the_logo_is_found_whatever_its_kind() {
    let files = owned(&["settings.json", "LOGO.Svg", "logo.png"]);
    assert_eq!(settings::find_settings_logo(&files), Some(1));
    assert_eq!(settings::get_settings_logo(&files).ok().unwrap(), (1, "image/svg+xml"));
    let f = settings::get_settings_logo(&owned(&["logos.png"])).err().unwrap();
    assert_eq!((f.status.code(), f.message.as_str()), (404, "no logo"));
    let (bytes, name) = settings::upload_settings_logo(&js(r#"{"filename": "x.GIF", "data_base64": "QQ=="}"#)).ok().unwrap();
    assert_eq!((bytes.as_slice(), name.as_str()), (&b"A"[..], "logo.gif"));
    assert!(settings::upload_settings_logo(&js("{}")).is_err());
}

#[test]
fn the_feed_is_kept_as_the_settings_say() {
    let day = 86_400_000u128;
    let s = js(r#"{"chat_retention_months": 1, "chat_retention_days": 2, "chat_retention_hours": 3}"#);
    assert_eq!(chat::chat_retention_cutoff(Some(&s), 100 * day), Some(68 * day - 3 * 3_600_000));
    assert_eq!(chat::chat_retention_cutoff(Some(&s), day), Some(0));
    assert_eq!(chat::chat_retention_cutoff(Some(&js(r#"{"chat_retention_days": -4}"#)), day), None);
    assert_eq!(chat::chat_retention_cutoff(None, day), None);
    let feed = list(r#"[{"ts": 10}, {"n": 1}, {"ts": 86400000}, {"ts": 86399999}]"#);
    let on = js(r#"{"chat_retention_days": 1, "chat_retention_delete": true}"#);
    let (kept, changed) = chat::apply_chat_retention(copy(&feed), Some(&on), 2 * day);
    assert_eq!(text(&Json::list(kept)), r#"[{"n":1},{"ts":86400000}]"#);
    assert!(changed);
    let (kept, changed) = chat::apply_chat_retention(copy(&feed), Some(&js(r#"{"chat_retention_days": 1}"#)), 2 * day);
    assert_eq!((kept.len(), changed), (4, false));
    let (kept, changed) = chat::apply_chat_retention(feed, Some(&js(r#"{"chat_retention_delete": true}"#)), 2 * day);
    assert_eq!((kept.len(), changed), (4, false));
}

#[test]
fn clients_get_what_is_new() {
    let feed = list(r#"[{"ts": 1}, {"ts": 5}, {"n": 1}, {"ts": 6}]"#);
    says(&chat::list_chat_feed(&feed, Some(5), 2), r#"{"items": [{"ts": 6}], "online": 2}"#);
    says(&chat::list_chat_feed(&feed, None, 0), r#"{"items": [{"ts": 1}, {"ts": 5}, {"ts": 6}], "online": 0}"#);
}

#[test]
fn entries_get_a_time_of_their_own() {
    let (feed, e) = chat::append_chat_entry(vec![], js(r#"{"text": "a"}"#), 100).unwrap();
    says(&e, r#"{"text": "a", "id": "m-100", "ts": 100}"#);
    let (feed, e) = chat::append_chat_entry(feed, js(r#"{"text": "b"}"#), 100).unwrap();
    says(&e, r#"{"text": "b", "id": "m-101", "ts": 101}"#);
    says(&chat::list_chat_feed(&feed, Some(100), 0), r#"{"items": [{"text": "b", "id": "m-101", "ts": 101}], "online": 0}"#);
    let full = list(r#"[{"ts": 18446744073709551615}]"#);
    assert!(chat::append_chat_entry(full, js("{}"), 5).is_none());
    says(&chat::entry_answer(js("{}")), r#"{"ok": true, "item": {}}"#);
}

#[test]
fn messages_and_events_need_a_text() {
    says(&chat::post_chat_message(" hi ", " Ann ").ok().unwrap(), r#"{"type": "msg", "author": "Ann", "text": "hi"}"#);
    let f = chat::post_chat_message("  ", "x").err().unwrap();
    assert_eq!((f.status.code(), f.message.as_str()), (400, "text is required"));
    says(
        &chat::post_chat_event(" t ", "wheels", " k ").ok().unwrap(),
        r#"{"type": "event", "kind": "wheels", "notify_key": "k", "text": "t"}"#,
    );
    assert_eq!(chat::post_chat_event("t", "Wheels", "").ok().unwrap().text_in("kind"), "generic");
    let f = chat::post_chat_event("", "done", "").err().unwrap();
    assert_eq!((f.status.code(), f.message.as_str()), (400, "text is required"));
}

#[test]
fn clients_are_online_for_a_while() {
    let mut p = chat::presence_map();
    assert_eq!(chat::touch_and_count_presence(&mut p, "", 5), 0);
    assert_eq!(chat::touch_and_count_presence(&mut p, "a", 5), 1);
    assert_eq!(chat::touch_and_count_presence(&mut p, "b", 1_000), 2);
    assert_eq!(chat::touch_and_count_presence(&mut p, "a", 2_000), 2);
    assert_eq!(chat::touch_and_count_presence(&mut p, "", 601_000), 2);
    assert_eq!(chat::touch_and_count_presence(&mut p, "", 601_001), 1);
    assert_eq!(chat::touch_and_count_presence(&mut p, "c", 9_000_000), 1);
    assert_eq!(chat::PRESENCE_TTL_MS, 600_000);
}

fn plain_token(counter: u64, time_ns: u64, pid: u32) -> String {
    let mut state: u64 = time_ns
        .wrapping_mul(counter.wrapping_add(1))
        .wrapping_add(pid as u64)
        .wrapping_mul(0x9E37_79B9_7F4A_7C15);
    let mut out = String::new();
    for _ in 0..6 {
        state ^= state << 13;
        state ^= state >> 7;
        state ^= state << 17;
        out.push_str(&format!("{:016x}", state));
    }
    out.truncate(48);
    out
}

#[test]
fn tokens_are_48_hexadecimal_digits() {
    for (counter, time_ns, pid) in [(0, 1_700_000_000_123_456_789, 4242), (7, u64::MAX, u32::MAX), (u64::MAX, 5, 0), (0, 0, 0)] {
        let seed = Seed { counter, time_ns, pid };
        let t = scanner::scanner_new_token(seed);
        assert_eq!(t, plain_token(counter, time_ns, pid));
        assert_eq!(t.len(), 48);
        assert!(t.chars().all(|c| c.is_ascii_hexdigit() && !c.is_ascii_uppercase()));
        assert_eq!(scanner::scanner_new_id("dev", seed), format!("dev-{}", &t[..16]));
    }
    assert_eq!(
        scanner::scanner_new_token(Seed { counter: 0, time_ns: 0, pid: 0 }),
        "000000000000000000000000000000000000000000000000"
    );
}

#[test]
fn tokens_live_as_long_as_the_settings_say() {
    assert_eq!(scanner::scanner_pair_ttl_ms(None), 600_000);
    assert_eq!(scanner::scanner_pair_ttl_ms(Some(&js(r#"{"scanner_pair_ttl_minutes": 3}"#))), 180_000);
    assert_eq!(scanner::scanner_pair_ttl_ms(Some(&js(r#"{"scanner_pair_ttl_minutes": 0}"#))), 600_000);
    assert_eq!(scanner::scanner_pair_ttl_ms(Some(&js(r#"{"scanner_pair_ttl_minutes": "3"}"#))), 600_000);
    let l = list(r#"[{"expires_ms": 5}, {"expires_ms": 6}, {}]"#);
    assert_eq!(text(&Json::list(scanner::prune_expired_pair_tokens(l, 5))), r#"[{"expires_ms":6}]"#);
}

fn registration(token: &str) -> Registration {
    Registration {
        pair_token: token.to_string(),
        name: " ".to_string(),
        platform: " ios ".to_string(),
        app_version: " 1 ".to_string(),
    }
}

#[test]
fn a_phone_is_paired_once() {
    let (pending, answer) = scanner::create_scanner_pair(vec![], " http://x ", "tok", None, 1_000).ok().unwrap();
    says(
        &answer,
        r#"{"token": "tok", "expires_ms": 601000, "qr_url": "/api/scanner/pair/tok/qr", "status_url": "/api/scanner/pair/tok/status"}"#,
    );
    says(
        &pending[0],
        r#"{"token": "tok", "server_url": "http://x", "created_ms": 1000, "expires_ms": 601000, "consumed_device_id": null}"#,
    );
    says(
        &scanner::get_scanner_pair_status(copy(&pending), &vec![], "tok", 2_000),
        r#"{"status": "waiting", "expires_ms": 601000}"#,
    );
    says(
        &scanner::scanner_pair_payload(copy(&pending), "tok", 2_000).ok().unwrap(),
        r#"{"v": 1, "kind": "garage-scanner-pair", "server": "http://x", "token": "tok"}"#,
    );
    let done = scanner::register_scanner_device(pending, vec![], &registration("tok"), "dev-1", "secret", 3_000).ok().unwrap();
    says(&done.answer, r#"{"device_id": "dev-1", "device_token": "secret", "name": "Scanner"}"#);
    says(
        &done.devices[0],
        r#"{"id": "dev-1", "name": "Scanner", "device_token": "secret", "created_ms": 3000, "last_seen_ms": 3000,
            "platform": "ios", "app_version": "1"}"#,
    );
    let status = scanner::get_scanner_pair_status(copy(&done.pending), &done.devices, "tok", 4_000);
    assert_eq!(status.text_in("status"), "paired");
    assert_eq!(status.get("device").unwrap().text_in("id"), "dev-1");
    let f = scanner::register_scanner_device(copy(&done.pending), vec![], &registration("tok"), "dev-2", "s2", 5_000).err().unwrap();
    assert_eq!((f.status.code(), f.message.as_str()), (409, "pairing token already used"));
    let f = scanner::register_scanner_device(copy(&done.pending), vec![], &registration("tok"), "dev-2", "s2", 601_000).err().unwrap();
    assert_eq!((f.status.code(), f.message.as_str()), (400, "pairing token expired or unknown"));
    says(&scanner::get_scanner_pair_status(copy(&done.pending), &done.devices, "tok", 601_000), r#"{"status": "expired"}"#);
    let f = scanner::scanner_pair_payload(done.pending, "nope", 5).err().unwrap();
    assert_eq!((f.status.code(), f.message.as_str()), (404, "unknown or expired token"));
    let f = scanner::create_scanner_pair(vec![], "  ", "tok", None, 1_000).err().unwrap();
    assert_eq!((f.status.code(), f.message.as_str()), (400, "server_url is required"));
}

#[test]
fn a_used_token_is_refused_while_it_is_live() {
    let pending = list(r#"[{"token": "tok", "expires_ms": 900}, {"token": "tok", "expires_ms": 990}]"#);
    let done = scanner::register_scanner_device(pending, vec![], &registration("tok"), "dev-1", "s1", 100).ok().unwrap();
    let f = scanner::register_scanner_device(copy(&done.pending), vec![], &registration("tok"), "dev-2", "s2", 899).err().unwrap();
    assert_eq!((f.status.code(), f.message.as_str()), (409, "pairing token already used"));
    assert!(scanner::register_scanner_device(copy(&done.pending), vec![], &registration("tok"), "dev-2", "s2", 900).is_ok());
}

#[test]
fn qr_codes_are_drawn() {
    let svg = scanner::get_scanner_pair_qr(b"hello").ok().unwrap();
    assert!(svg.contains("<svg"));
    assert!(svg.contains("#111111") && svg.contains("#ffffff"));
    assert_eq!(svg, scanner::get_scanner_pair_qr(b"hello").ok().unwrap());
    assert_ne!(svg, scanner::get_scanner_pair_qr(b"hullo").ok().unwrap());
    let f = scanner::get_scanner_pair_qr(&vec![7u8; 5000]).err().unwrap();
    assert_eq!(f.status.code(), 500);
    let f = scanner::found_drawing(Err("long".to_string())).err().unwrap();
    assert_eq!((f.status.code(), f.message.as_str()), (500, "long"));
    assert_eq!(scanner::found_drawing(Ok("s".to_string())).ok().unwrap(), "s");
}

#[test]
fn devices_are_let_in_by_their_token() {
    let devices = list(r#"[{"id": "dev-1", "device_token": "aa"}, {"id": "dev-2", "device_token": "bb"}]"#);
    assert_eq!(scanner::scanner_auth_device("Bearer bb", &devices).ok().unwrap(), (1, "dev-2".to_string()));
    assert_eq!(scanner::scanner_auth_device("bearer  aa ", &devices).ok().unwrap().0, 0);
    for auth in ["", "Bearer ", "BEARER aa", "Basic aa"] {
        let f = scanner::scanner_auth_device(auth, &devices).err().unwrap();
        assert_eq!((f.status.code(), f.message.as_str()), (401, "missing bearer token"));
    }
    let f = scanner::scanner_auth_device("Bearer zz", &devices).err().unwrap();
    assert_eq!((f.status.code(), f.message.as_str()), (401, "invalid device token"));
    says(&scanner::list_scanner_devices(&devices), r#"{"items": [{"id": "dev-1"}, {"id": "dev-2"}]}"#);
    let (seen, id) = scanner::see_scanner_device("Bearer aa", copy(&devices), 9).ok().unwrap();
    assert_eq!(id, "dev-1");
    says(&seen[0], r#"{"id": "dev-1", "device_token": "aa", "last_seen_ms": 9}"#);
    assert!(scanner::see_scanner_device("Bearer q", copy(&devices), 9).is_err());
    let left = scanner::delete_scanner_device(devices, "dev-2").ok().unwrap();
    assert!(scanner::scanner_auth_device("Bearer bb", &left).is_err());
    let f = scanner::delete_scanner_device(left, "dev-2").err().unwrap();
    assert_eq!((f.status.code(), f.message.as_str()), (404, "device not found"));
}

#[test]
fn a_paired_phone_is_let_in() {
    let seed = Seed { counter: 3, time_ns: 1_700_000_000_000_000_001, pid: 77 };
    let token = scanner::scanner_new_token(seed);
    let (pending, _) = scanner::create_scanner_pair(vec![], "http://x", "pair", None, 1_000).ok().unwrap();
    let done =
        scanner::register_scanner_device(pending, vec![], &registration("pair"), "dev-9", &token, 1_001).ok().unwrap();
    let (at, id) = scanner::scanner_auth_device(&format!("Bearer {}", token), &done.devices).ok().unwrap();
    assert_eq!((at, id.as_str()), (0, "dev-9"));
}

fn body(scans: &str, code: Option<&str>) -> ScanBody {
    ScanBody {
        scans: list(scans),
        code: code.map(|c| c.to_string()),
        kind: None,
        confidence: js("0.5"),
        raw_text: None,
        scanned_ms: None,
    }
}

#[test]
fn scans_are_taken_in() {
    let incoming = scanner::incoming_scans(&body(r#"[{"code": " A ", "type": "ean", "scanned_ms": 3, "raw_text": "r"}, {"code": " "}]"#, Some(" B ")), 9)
        .ok()
        .unwrap();
    assert_eq!(incoming.len(), 3);
    let (all, answer) = scanner::post_scanner_scan(list(r#"[{"id": "old"}]"#), &incoming, &owned(&["scan-1", "scan-2", "scan-3"]), "dev-1", 9);
    assert_eq!(all.len(), 3);
    says(
        &answer,
        r#"{"ok": true, "count": 2, "items": [
            {"id": "scan-1", "device_id": "dev-1", "code": "A", "type": "ean", "confidence": null, "raw_text": "r",
             "scanned_ms": 3, "received_ms": 9, "dismissed": false},
            {"id": "scan-3", "device_id": "dev-1", "code": "B", "type": "", "confidence": 0.5, "raw_text": null,
             "scanned_ms": 9, "received_ms": 9, "dismissed": false}]}"#,
    );
    for code in [None, Some("  ")] {
        let f = scanner::incoming_scans(&body("[]", code), 9).err().unwrap();
        assert_eq!((f.status.code(), f.message.as_str()), (400, "no scans in body"));
    }
}

#[test]
fn scans_are_listed_newest_first() {
    let scans = list(r#"[{"n": 1, "received_ms": 5}, {"n": 2, "received_ms": 9, "dismissed": true}, {"n": 3, "received_ms": 9}, {"n": 4}]"#);
    let ns = |since, pending, limit| {
        to_value(&scanner::list_scanner_scans(&scans, since, pending, limit))["items"]
            .as_array()
            .unwrap()
            .iter()
            .map(|s| s["n"].as_u64().unwrap())
            .collect::<Vec<u64>>()
    };
    assert_eq!(ns(None, None, None), vec![2, 3, 1, 4]);
    assert_eq!(ns(Some(5), None, None), vec![2, 3]);
    assert_eq!(ns(None, Some(true), None), vec![3, 1, 4]);
    assert_eq!(ns(None, Some(false), Some(1)), vec![2]);
    assert_eq!(ns(Some(0), None, Some(9)), vec![2, 3, 1]);
    assert_eq!(ns(None, None, Some(0)), Vec::<u64>::new());
}
