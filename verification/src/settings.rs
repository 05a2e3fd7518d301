//! Settings: branding, screensaver, printing, chat, scanners and hours.
use crate::digits;
use crate::failure::{fail, Failure, Status};
use crate::json;
use crate::json::{Doc, Json};
use crate::lists;
use crate::names;
use crate::photos;
use crate::text;
use vstd::prelude::*;

verus! {

/// The settings where none are stored.
pub open spec fn default_settings() -> Doc {
    let none = Doc::Str(Seq::<char>::empty());
    Doc::object().with("company_name"@, none).with("company_phone"@, none).with(
        "company_address"@,
        none,
    ).with("screensaver_enabled"@, Doc::Bool(true)).with(
        "screensaver_idle_minutes"@,
        Doc::num(10),
    ).with("screensaver_bg_color"@, Doc::Str("#000000"@)).with(
        "print_show_logo"@,
        Doc::Bool(true),
    ).with("chat_retention_months"@, Doc::num(0)).with("chat_retention_days"@, Doc::num(0)).with(
        "chat_retention_hours"@,
        Doc::num(0),
    ).with("chat_retention_delete"@, Doc::Bool(false)).with(
        "chat_autoclose_use_screensaver"@,
        Doc::Bool(true),
    ).with("chat_autoclose_screensaver_pct"@, Doc::num(30)).with(
        "chat_autoclose_fallback_minutes"@,
        Doc::num(2),
    ).with("chat_sound_enabled"@, Doc::Bool(true)).with("chat_sound_volume"@, Doc::num(60)).with(
        "scanner_pair_ttl_minutes"@,
        Doc::num(10),
    ).with("scanner_default_division"@, none).with("backup_auto_enabled"@, Doc::Bool(false)).with(
        "backup_auto_destination"@,
        none,
    ).with("backup_auto_schedule"@, Doc::Str("daily"@)).with("backup_last_ms"@, Doc::num(0)).with(
        "work_day_start_hhmm"@,
        Doc::Str("09:00"@),
    ).with("work_day_end_hhmm"@, Doc::Str("18:00"@)).with(
        "work_lunch_start_hhmm"@,
        Doc::Str("13:00"@),
    ).with("work_lunch_end_hhmm"@, Doc::Str("14:00"@)).with(
        "deduct_lunch_from_elapsed"@,
        Doc::Bool(false),
    )
}

pub fn settings_defaults() -> (r: Json)
    ensures
        r@ == default_settings(),
{
    let none = String::new();
    assert(none@ =~= Seq::<char>::empty());
    let s = none.as_str();
    Json::object().with_text("company_name", s).with_text("company_phone", s).with_text(
        "company_address",
        s,
    ).with("screensaver_enabled", Json::Bool(true)).with(
        "screensaver_idle_minutes",
        Json::of_u64(10),
    ).with_text("screensaver_bg_color", "#000000").with("print_show_logo", Json::Bool(true)).with(
        "chat_retention_months",
        Json::of_u64(0),
    ).with("chat_retention_days", Json::of_u64(0)).with(
        "chat_retention_hours",
        Json::of_u64(0),
    ).with("chat_retention_delete", Json::Bool(false)).with(
        "chat_autoclose_use_screensaver",
        Json::Bool(true),
    ).with("chat_autoclose_screensaver_pct", Json::of_u64(30)).with(
        "chat_autoclose_fallback_minutes",
        Json::of_u64(2),
    ).with("chat_sound_enabled", Json::Bool(true)).with(
        "chat_sound_volume",
        Json::of_u64(60),
    ).with("scanner_pair_ttl_minutes", Json::of_u64(10)).with_text(
        "scanner_default_division",
        s,
    ).with("backup_auto_enabled", Json::Bool(false)).with_text(
        "backup_auto_destination",
        s,
    ).with_text("backup_auto_schedule", "daily").with("backup_last_ms", Json::of_u64(0)).with_text(
        "work_day_start_hhmm",
        "09:00",
    ).with_text("work_day_end_hhmm", "18:00").with_text(
        "work_lunch_start_hhmm",
        "13:00",
    ).with_text("work_lunch_end_hhmm", "14:00").with(
        "deduct_lunch_from_elapsed",
        Json::Bool(false),
    )
}

/// The settings: what is stored, and the defaults for what is not.
pub open spec fn current_settings(stored: Option<Doc>) -> Doc {
    match stored {
        Some(d) => default_settings().overlaid(d),
        None => default_settings(),
    }
}

fn read_current(stored: Option<&Json>) -> (r: Json)
    ensures
        r@ == current_settings(json::opt_doc(stored)),
{
    match stored {
        Some(d) => settings_defaults().overlaid(d),
        None => settings_defaults(),
    }
}

/// The settings as they are shown.
pub open spec fn settings_answer(stored: Option<Doc>, has_logo: bool) -> Doc {
    current_settings(stored).with("has_logo"@, Doc::Bool(has_logo))
}

pub fn get_settings(stored: Option<&Json>, has_logo: bool) -> (r: Json)
    ensures
        r@ == settings_answer(json::opt_doc(stored), has_logo),
{
    read_current(stored).with("has_logo", Json::Bool(has_logo))
}

/// A setting that is a number and was sent as a text that holds one.
pub open spec fn number_read(d: Doc, k: Seq<char>) -> Doc {
    match d.text_at(k) {
        Some(s) => match digits::read_signed(text::trimmed(s)) {
            Some(n) => d.with(k, Doc::num(n as int)),
            None => d,
        },
        None => d,
    }
}

/// What is stored of the settings that are sent: whether there is a logo is
/// no setting, the time of the last backup is not set from here, and numbers
/// may come as texts.
pub open spec fn settings_sent(payload: Doc) -> Doc {
    number_read(
        number_read(
            number_read(
                number_read(
                    number_read(
                        number_read(
                            number_read(
                                number_read(
                                    payload.without("has_logo"@).without("backup_last_ms"@),
                                    "screensaver_idle_minutes"@,
                                ),
                                "chat_retention_months"@,
                            ),
                            "chat_retention_days"@,
                        ),
                        "chat_retention_hours"@,
                    ),
                    "chat_autoclose_screensaver_pct"@,
                ),
                "chat_autoclose_fallback_minutes"@,
            ),
            "chat_sound_volume"@,
        ),
        "scanner_pair_ttl_minutes"@,
    )
}

/// The settings to store when some are sent; the others stay.
pub open spec fn settings_changed(stored: Option<Doc>, payload: Doc) -> Doc {
    current_settings(stored).overlaid(settings_sent(payload))
}

fn read_number(d: Json, k: &str) -> (r: Json)
    ensures
        r@ == number_read(d@, k@),
{
    let n: i64 = match d.text_at(k) {
        Some(s) => match digits::parse_i64(text::trim(s).as_str()) {
            Some(n) => n,
            None => return d,
        },
        None => return d,
    };
    d.with(k, Json::of_i64(n))
}

pub fn update_settings(stored: Option<&Json>, payload: Json) -> (r: Json)
    ensures
        r@ == settings_changed(json::opt_doc(stored), payload@),
{
    let sendable = payload.without("has_logo").without("backup_last_ms");
    let a = read_number(sendable, "screensaver_idle_minutes");
    let b = read_number(a, "chat_retention_months");
    let c = read_number(b, "chat_retention_days");
    let d = read_number(c, "chat_retention_hours");
    let e = read_number(d, "chat_autoclose_screensaver_pct");
    let f = read_number(e, "chat_autoclose_fallback_minutes");
    let g = read_number(f, "chat_sound_volume");
    let sent = read_number(g, "scanner_pair_ttl_minutes");
    read_current(stored).overlaid(&sent)
}

/// Whether a file is the logo, whatever its kind.
pub open spec fn is_logo(name: Seq<char>) -> bool {
    text::all_small(names::stem(name)) == "logo"@
}

/// The place of the logo among the files of the settings.
pub open spec fn logo_place(files: Seq<Seq<char>>) -> Option<int> {
    lists::first_at(files, |f: Seq<char>| is_logo(f))
}

pub fn find_settings_logo(files: &Vec<String>) -> (r: Option<usize>)
    ensures
        match r {
            Some(i) => i < files@.len() && logo_place(text::texts(files@)) == Some(i as int),
            None => logo_place(text::texts(files@)) is None,
        },
{
    let ghost all = text::texts(files@);
    let ghost wanted = |f: Seq<char>| is_logo(f);
    let mut i: usize = 0;
    while i < files.len()
        invariant
            i <= files@.len(),
            all == text::texts(files@),
            wanted == (|f: Seq<char>| is_logo(f)),
            forall|k: int| 0 <= k < i ==> !wanted(#[trigger] all[k]),
        decreases files@.len() - i,
    {
        assert(all[i as int] == files@[i as int]@);
        let stem = text::ascii_lower(names::file_stem(files[i].as_str()).as_str());
        if text::same(stem.as_str(), "logo") {
            proof {
                lists::lemma_first_at(all, wanted, i as int);
            }
            return Some(i);
        }
        i = i + 1;
    }
    proof {
        lists::lemma_first_nowhere(all, wanted);
    }
    None
}

/// The files that go when a logo is uploaded: every one that is a logo.
pub fn old_settings_logos(files: &Vec<String>) -> (r: Vec<String>)
    ensures
        text::texts(r@) == text::texts(files@).filter(|f: Seq<char>| is_logo(f)),
{
    let ghost all = text::texts(files@);
    let ghost keep = |f: Seq<char>| is_logo(f);
    let mut out: Vec<String> = Vec::new();
    let mut i: usize = 0;
    proof {
        lists::lemma_filter_none(keep);
        assert(all.take(0) =~= Seq::<Seq<char>>::empty());
        assert(text::texts(out@) =~= Seq::<Seq<char>>::empty());
    }
    while i < files.len()
        invariant
            i <= files@.len(),
            all == text::texts(files@),
            keep == (|f: Seq<char>| is_logo(f)),
            text::texts(out@) == all.take(i as int).filter(keep),
        decreases files@.len() - i,
    {
        let ghost before = out@;
        proof {
            lists::lemma_filter_step(all, i as int, keep);
            assert(all[i as int] == files@[i as int]@);
        }
        let stem = text::ascii_lower(names::file_stem(files[i].as_str()).as_str());
        if text::same(stem.as_str(), "logo") {
            out.push(files[i].clone());
            assert(text::texts(out@) =~= text::texts(before).push(files@[i as int]@));
        }
        i = i + 1;
    }
    assert(all.take(i as int) =~= all);
    out
}

/// The logo to serve: its place among the files, and its type of content.
pub fn get_settings_logo(files: &Vec<String>) -> (r: Result<(usize, &'static str), Failure>)
    ensures
        match r {
            Ok(p) => p.0 < files@.len() && logo_place(text::texts(files@)) == Some(p.0 as int)
                && p.1@ == photos::file_mime(files@[p.0 as int]@),
            Err(f) => logo_place(text::texts(files@)) is None && f@ == (
                Status::NotFound,
                "no logo"@,
            ),
        },
        match r {
            Ok(p) => logo_served(text::texts(files@)) == Ok::<(int, Seq<char>), (Status, Seq<char>)>(
                (p.0 as int, p.1@),
            ),
            Err(f) => logo_served(text::texts(files@)) == Err::<
                (int, Seq<char>),
                (Status, Seq<char>),
            >(f@),
        },
{
    match find_settings_logo(files) {
        Some(i) => Ok((i, photos::file_content_type(files[i].as_str()))),
        None => Err(fail(Status::NotFound, "no logo")),
    }
}

/// The logo to keep: its bytes and the name of its file.
pub fn upload_settings_logo(payload: &Json) -> (r: Result<(Vec<u8>, String), Failure>)
    ensures
        match r {
            Ok(p) => photos::uploaded(payload@) == Ok::<Seq<u8>, (Status, Seq<char>)>(p.0@)
                && photos::picture_named(payload@, "logo.png"@, "logo"@, p.1@),
            Err(f) => photos::uploaded(payload@) == Err::<Seq<u8>, (Status, Seq<char>)>(f@),
        },
{
    photos::upload_picture(payload, "logo.png", "logo")
}

/// There is always exactly one logo: once the old ones have gone and the
/// uploaded one is kept, it alone is a logo among the files, and the other
/// files are as they were.
pub proof fn law_one_logo(files: Seq<Seq<char>>, payload: Doc, file: Seq<char>)
    requires
        photos::picture_named(payload, "logo.png"@, "logo"@, file),
    ensures
        ({
            let after = lists::replaced(files, files.filter(|f: Seq<char>| is_logo(f)), file);
            &&& after.filter(|f: Seq<char>| is_logo(f)) == seq![file]
            &&& forall|f: Seq<char>| !is_logo(f) ==> #[trigger] after.contains(f) == files.contains(f)
        }),
{
    let keep = |f: Seq<char>| is_logo(f);
    reveal_strlit("logo");
    let kind = choose|kind: Seq<char>|
        photos::is_picture_kind(kind) && file == #[trigger] photos::picture_name("logo"@, kind);
    photos::law_picture_stem("logo"@, kind);
    assert(text::all_small("logo"@) =~= "logo"@);
    lists::lemma_replaced(files, keep, file);
    let after = lists::replaced(files, files.filter(keep), file);
    assert forall|f: Seq<char>| !is_logo(f) implies #[trigger] after.contains(f) == files.contains(f) by {
        assert(!keep(f));
    }
}

proof fn lemma_number_read(d: Doc, k: Seq<char>, other: Seq<char>)
    ensures
        number_read(d, k).is_object() == d.is_object(),
        other != k ==> number_read(d, k).get(other) == d.get(other),
        number_read(d, k).has(other) == d.has(other),
{
}

/// What holds of the settings that are sent, name by name.
proof fn lemma_sent(payload: Doc, k: Seq<char>)
    requires
        payload.is_object(),
    ensures
        settings_sent(payload).is_object(),
        k != "has_logo"@ && k != "backup_last_ms"@ ==> settings_sent(payload).has(k)
            == payload.has(k),
        !settings_sent(payload).has("has_logo"@),
        !settings_sent(payload).has("backup_last_ms"@),
{
    let p0 = payload.without("has_logo"@).without("backup_last_ms"@);
    let p1 = number_read(p0, "screensaver_idle_minutes"@);
    let p2 = number_read(p1, "chat_retention_months"@);
    let p3 = number_read(p2, "chat_retention_days"@);
    let p4 = number_read(p3, "chat_retention_hours"@);
    let p5 = number_read(p4, "chat_autoclose_screensaver_pct"@);
    let p6 = number_read(p5, "chat_autoclose_fallback_minutes"@);
    let p7 = number_read(p6, "chat_sound_volume"@);
    assert forall|n: Seq<char>| #[trigger] settings_sent(payload).has(n) == p0.has(n) by {
        lemma_number_read(p0, "screensaver_idle_minutes"@, n);
        lemma_number_read(p1, "chat_retention_months"@, n);
        lemma_number_read(p2, "chat_retention_days"@, n);
        lemma_number_read(p3, "chat_retention_hours"@, n);
        lemma_number_read(p4, "chat_autoclose_screensaver_pct"@, n);
        lemma_number_read(p5, "chat_autoclose_fallback_minutes"@, n);
        lemma_number_read(p6, "chat_sound_volume"@, n);
        lemma_number_read(p7, "scanner_pair_ttl_minutes"@, n);
    }
    assert(settings_sent(payload).has(k) == p0.has(k));
    assert(!settings_sent(payload).has("has_logo"@));
    assert(!settings_sent(payload).has("backup_last_ms"@));
}

/// A change of some settings leaves the others as they were.
pub proof fn law_change_keeps_others(stored: Option<Doc>, payload: Doc, k: Seq<char>)
    requires
        !payload.has(k),
    ensures
        settings_changed(stored, payload).get(k) == current_settings(stored).get(k),
{
    if payload.is_object() {
        lemma_sent(payload, k);
        assert(!settings_sent(payload).has(k)) by {
            if k == "has_logo"@ || k == "backup_last_ms"@ {
                lemma_sent(payload, k);
            }
        }
    }
}

/// What is stored of a setting is what is shown of it at the next request.
pub proof fn law_settings_read_back(stored: Option<Doc>, payload: Doc, k: Seq<char>)
    requires
        payload.has(k),
        k != "has_logo"@,
        k != "backup_last_ms"@,
    ensures
        current_settings(Some(settings_changed(stored, payload))).get(k) == settings_sent(
            payload,
        ).get(k),
        settings_answer(Some(settings_changed(stored, payload)), true).get(k) == settings_sent(
            payload,
        ).get(k),
{
    lemma_sent(payload, k);
}

/// Every setting that has a default has a value, whatever is stored.
pub proof fn law_defaults_fill_in(stored: Option<Doc>, k: Seq<char>)
    requires
        default_settings().has(k),
    ensures
        current_settings(stored).has(k),
        stored is None ==> current_settings(stored).get(k) == default_settings().get(k),
{
}

/// Whether there is a logo cannot be set: a request that claims it changes
/// nothing of it.
pub proof fn law_logo_is_not_stored(stored: Option<Doc>, payload: Doc)
    requires
        stored matches Some(d) ==> !d.has("has_logo"@),
    ensures
        !settings_changed(stored, payload).has("has_logo"@),
{
    lemma_default_has_no_logo();
    if payload.is_object() {
        lemma_sent(payload, "has_logo"@);
    }
}

/// When the last backup was made cannot be set: whatever is sent, the time
/// that is stored, or else the default, stays.
pub proof fn law_backup_time_stays(stored: Option<Doc>, payload: Doc)
    ensures
        settings_changed(stored, payload).get("backup_last_ms"@) == current_settings(stored).get(
            "backup_last_ms"@,
        ),
{
    if payload.is_object() {
        lemma_sent(payload, "backup_last_ms"@);
    }
}

proof fn lemma_default_has_no_logo()
    ensures
        !default_settings().has("has_logo"@),
{
    reveal_strlit("has_logo");
    reveal_strlit("company_name");
    reveal_strlit("company_phone");
    reveal_strlit("company_address");
    reveal_strlit("screensaver_enabled");
    reveal_strlit("screensaver_idle_minutes");
    reveal_strlit("screensaver_bg_color");
    reveal_strlit("print_show_logo");
    reveal_strlit("chat_retention_months");
    reveal_strlit("chat_retention_days");
    reveal_strlit("chat_retention_hours");
    reveal_strlit("chat_retention_delete");
    reveal_strlit("chat_autoclose_use_screensaver");
    reveal_strlit("chat_autoclose_screensaver_pct");
    reveal_strlit("chat_autoclose_fallback_minutes");
    reveal_strlit("chat_sound_enabled");
    reveal_strlit("chat_sound_volume");
    reveal_strlit("scanner_pair_ttl_minutes");
    reveal_strlit("scanner_default_division");
    reveal_strlit("backup_auto_enabled");
    reveal_strlit("backup_auto_destination");
    reveal_strlit("backup_auto_schedule");
    reveal_strlit("backup_last_ms");
    reveal_strlit("work_day_start_hhmm");
    reveal_strlit("work_day_end_hhmm");
    reveal_strlit("work_lunch_start_hhmm");
    reveal_strlit("work_lunch_end_hhmm");
    reveal_strlit("deduct_lunch_from_elapsed");
    assert("has_logo"@.len() == 8);
    assert("company_name"@.len() == 12);
    assert("company_phone"@.len() == 13);
    assert("company_address"@.len() == 15);
    assert("screensaver_enabled"@.len() == 19);
    assert("screensaver_idle_minutes"@.len() == 24);
    assert("screensaver_bg_color"@.len() == 20);
    assert("print_show_logo"@.len() == 15);
    assert("chat_retention_months"@.len() == 21);
    assert("chat_retention_days"@.len() == 19);
    assert("chat_retention_hours"@.len() == 20);
    assert("chat_retention_delete"@.len() == 21);
    assert("chat_autoclose_use_screensaver"@.len() == 30);
    assert("chat_autoclose_screensaver_pct"@.len() == 30);
    assert("chat_autoclose_fallback_minutes"@.len() == 31);
    assert("chat_sound_enabled"@.len() == 18);
    assert("chat_sound_volume"@.len() == 17);
    assert("scanner_pair_ttl_minutes"@.len() == 24);
    assert("scanner_default_division"@.len() == 24);
    assert("backup_auto_enabled"@.len() == 19);
    assert("backup_auto_destination"@.len() == 23);
    assert("backup_auto_schedule"@.len() == 20);
    assert("backup_last_ms"@.len() == 14);
    assert("work_day_start_hhmm"@.len() == 19);
    assert("work_day_end_hhmm"@.len() == 17);
    assert("work_lunch_start_hhmm"@.len() == 21);
    assert("work_lunch_end_hhmm"@.len() == 19);
    assert("deduct_lunch_from_elapsed"@.len() == 25);
}

/// No two of these names are the same.
proof fn lemma_setting_names()
    ensures
        "company_name"@.len() == 12,
        "company_phone"@.len() == 13,
        "company_address"@.len() == 15,
        "screensaver_enabled"@.len() == 19,
        "screensaver_idle_minutes"@.len() == 24,
        "screensaver_bg_color"@.len() == 20,
        "print_show_logo"@.len() == 15,
        "chat_retention_months"@.len() == 21,
        "chat_retention_days"@.len() == 19,
        "chat_retention_hours"@.len() == 20,
        "chat_retention_delete"@.len() == 21,
        "chat_autoclose_use_screensaver"@.len() == 30,
        "chat_autoclose_screensaver_pct"@.len() == 30,
        "chat_autoclose_fallback_minutes"@.len() == 31,
        "chat_sound_enabled"@.len() == 18,
        "chat_sound_volume"@.len() == 17,
        "scanner_pair_ttl_minutes"@.len() == 24,
        "scanner_default_division"@.len() == 24,
        "backup_auto_enabled"@.len() == 19,
        "backup_auto_destination"@.len() == 23,
        "backup_auto_schedule"@.len() == 20,
        "backup_last_ms"@.len() == 14,
        "work_day_start_hhmm"@.len() == 19,
        "work_day_end_hhmm"@.len() == 17,
        "work_lunch_start_hhmm"@.len() == 21,
        "work_lunch_end_hhmm"@.len() == 19,
        "deduct_lunch_from_elapsed"@.len() == 25,
        "has_logo"@.len() == 8,
        "company_address"@ != "print_show_logo"@,
        "screensaver_enabled"@ != "chat_retention_days"@,
        "screensaver_enabled"@ != "backup_auto_enabled"@,
        "screensaver_enabled"@ != "work_day_start_hhmm"@,
        "screensaver_enabled"@ != "work_lunch_end_hhmm"@,
        "screensaver_idle_minutes"@ != "scanner_pair_ttl_minutes"@,
        "screensaver_idle_minutes"@ != "scanner_default_division"@,
        "screensaver_bg_color"@ != "chat_retention_hours"@,
        "screensaver_bg_color"@ != "backup_auto_schedule"@,
        "chat_retention_months"@ != "chat_retention_delete"@,
        "chat_retention_months"@ != "work_lunch_start_hhmm"@,
        "chat_retention_days"@ != "backup_auto_enabled"@,
        "chat_retention_days"@ != "work_day_start_hhmm"@,
        "chat_retention_days"@ != "work_lunch_end_hhmm"@,
        "chat_retention_hours"@ != "backup_auto_schedule"@,
        "chat_retention_delete"@ != "work_lunch_start_hhmm"@,
        "chat_autoclose_use_screensaver"@ != "chat_autoclose_screensaver_pct"@,
        "chat_sound_volume"@ != "work_day_end_hhmm"@,
        "scanner_pair_ttl_minutes"@ != "scanner_default_division"@,
        "backup_auto_enabled"@ != "work_day_start_hhmm"@,
        "backup_auto_enabled"@ != "work_lunch_end_hhmm"@,
        "work_day_start_hhmm"@ != "work_lunch_end_hhmm"@,
{
    reveal_strlit("company_name");
    reveal_strlit("company_phone");
    reveal_strlit("company_address");
    reveal_strlit("screensaver_enabled");
    reveal_strlit("screensaver_idle_minutes");
    reveal_strlit("screensaver_bg_color");
    reveal_strlit("print_show_logo");
    reveal_strlit("chat_retention_months");
    reveal_strlit("chat_retention_days");
    reveal_strlit("chat_retention_hours");
    reveal_strlit("chat_retention_delete");
    reveal_strlit("chat_autoclose_use_screensaver");
    reveal_strlit("chat_autoclose_screensaver_pct");
    reveal_strlit("chat_autoclose_fallback_minutes");
    reveal_strlit("chat_sound_enabled");
    reveal_strlit("chat_sound_volume");
    reveal_strlit("scanner_pair_ttl_minutes");
    reveal_strlit("scanner_default_division");
    reveal_strlit("backup_auto_enabled");
    reveal_strlit("backup_auto_destination");
    reveal_strlit("backup_auto_schedule");
    reveal_strlit("backup_last_ms");
    reveal_strlit("work_day_start_hhmm");
    reveal_strlit("work_day_end_hhmm");
    reveal_strlit("work_lunch_start_hhmm");
    reveal_strlit("work_lunch_end_hhmm");
    reveal_strlit("deduct_lunch_from_elapsed");
    reveal_strlit("has_logo");
    assert("company_address"@[0] != "print_show_logo"@[0]);
    assert("screensaver_enabled"@[0] != "chat_retention_days"@[0]);
    assert("screensaver_enabled"@[0] != "backup_auto_enabled"@[0]);
    assert("screensaver_enabled"@[0] != "work_day_start_hhmm"@[0]);
    assert("screensaver_enabled"@[0] != "work_lunch_end_hhmm"@[0]);
    assert("screensaver_idle_minutes"@[2] != "scanner_pair_ttl_minutes"@[2]);
    assert("screensaver_idle_minutes"@[2] != "scanner_default_division"@[2]);
    assert("screensaver_bg_color"@[0] != "chat_retention_hours"@[0]);
    assert("screensaver_bg_color"@[0] != "backup_auto_schedule"@[0]);
    assert("chat_retention_months"@[15] != "chat_retention_delete"@[15]);
    assert("chat_retention_months"@[0] != "work_lunch_start_hhmm"@[0]);
    assert("chat_retention_days"@[0] != "backup_auto_enabled"@[0]);
    assert("chat_retention_days"@[0] != "work_day_start_hhmm"@[0]);
    assert("chat_retention_days"@[0] != "work_lunch_end_hhmm"@[0]);
    assert("chat_retention_hours"@[0] != "backup_auto_schedule"@[0]);
    assert("chat_retention_delete"@[0] != "work_lunch_start_hhmm"@[0]);
    assert("chat_autoclose_use_screensaver"@[15] != "chat_autoclose_screensaver_pct"@[15]);
    assert("chat_sound_volume"@[0] != "work_day_end_hhmm"@[0]);
    assert("scanner_pair_ttl_minutes"@[8] != "scanner_default_division"@[8]);
    assert("backup_auto_enabled"@[0] != "work_day_start_hhmm"@[0]);
    assert("backup_auto_enabled"@[0] != "work_lunch_end_hhmm"@[0]);
    assert("work_day_start_hhmm"@[5] != "work_lunch_end_hhmm"@[5]);
}

/// The settings before any is changed.
pub proof fn law_defaults(k: Seq<char>)
    ensures
        ({
            let d = default_settings();
            &&& k == "company_name"@ || k == "company_phone"@ || k == "company_address"@ || k
                == "scanner_default_division"@ || k == "backup_auto_destination"@ ==> d.text_at(k)
                == Some(Seq::<char>::empty())
            &&& k == "screensaver_enabled"@ || k == "print_show_logo"@ || k
                == "chat_autoclose_use_screensaver"@ || k == "chat_sound_enabled"@ ==> d.get(k)
                == Some(Doc::Bool(true))
            &&& k == "chat_retention_delete"@ || k == "backup_auto_enabled"@ || k
                == "deduct_lunch_from_elapsed"@ ==> d.get(k) == Some(Doc::Bool(false))
            &&& k == "chat_retention_months"@ || k == "chat_retention_days"@ || k
                == "chat_retention_hours"@ || k == "backup_last_ms"@ ==> d.whole_at(k) == Some(0u64)
            &&& d.whole_at("screensaver_idle_minutes"@) == Some(10u64)
            &&& d.whole_at("scanner_pair_ttl_minutes"@) == Some(10u64)
            &&& d.whole_at("chat_autoclose_screensaver_pct"@) == Some(30u64)
            &&& d.whole_at("chat_autoclose_fallback_minutes"@) == Some(2u64)
            &&& d.whole_at("chat_sound_volume"@) == Some(60u64)
            &&& d.text_at("screensaver_bg_color"@) == Some("#000000"@)
            &&& d.text_at("backup_auto_schedule"@) == Some("daily"@)
            &&& d.text_at("work_day_start_hhmm"@) == Some("09:00"@)
            &&& d.text_at("work_day_end_hhmm"@) == Some("18:00"@)
            &&& d.text_at("work_lunch_start_hhmm"@) == Some("13:00"@)
            &&& d.text_at("work_lunch_end_hhmm"@) == Some("14:00"@)
        }),
{
    lemma_setting_names();
}

/// The settings that count: what is stored, and the defaults for what is not.
pub proof fn law_current(stored: Doc, has_logo: bool, k: Seq<char>)
    requires
        stored.is_object(),
    ensures
        stored.has(k) ==> current_settings(Some(stored)).get(k) == stored.get(k),
        !stored.has(k) ==> current_settings(Some(stored)).get(k) == default_settings().get(k),
        current_settings(None) == default_settings(),
        settings_answer(Some(stored), has_logo).get("has_logo"@) == Some(Doc::Bool(has_logo)),
        settings_answer(None, has_logo).get("has_logo"@) == Some(Doc::Bool(has_logo)),
        k != "has_logo"@ ==> settings_answer(Some(stored), has_logo).get(k) == current_settings(
            Some(stored),
        ).get(k),
        k != "has_logo"@ ==> settings_answer(None, has_logo).get(k) == default_settings().get(k),
{
}

/// Stored settings that are no object count for nothing.
pub proof fn law_current_unreadable(stored: Doc)
    requires
        !stored.is_object(),
    ensures
        current_settings(Some(stored)) == default_settings(),
{
}

/// A setting that is sent counts as it was sent. Eight of them are numbers: one
/// of those that is sent as a text counts as the number in it, where there is
/// one.
pub proof fn law_setting_sent(stored: Option<Doc>, payload: Doc, k: Seq<char>)
    requires
        payload.is_object(),
        payload.has(k),
        k != "has_logo"@,
        k != "backup_last_ms"@,
    ensures
        ({
            let numeric = k == "screensaver_idle_minutes"@ || k == "chat_retention_months"@ || k
                == "chat_retention_days"@ || k == "chat_retention_hours"@ || k
                == "chat_autoclose_screensaver_pct"@ || k == "chat_autoclose_fallback_minutes"@ || k
                == "chat_sound_volume"@ || k == "scanner_pair_ttl_minutes"@;
            &&& !numeric ==> settings_changed(stored, payload).get(k) == payload.get(k)
            &&& numeric ==> settings_changed(stored, payload).get(k) == match payload.get(k) {
                Some(Doc::Str(s)) => match digits::read_signed(text::trimmed(s)) {
                    Some(n) => Some(Doc::num(n as int)),
                    None => Some(Doc::Str(s)),
                },
                other => other,
            }
        }),
{
    lemma_setting_names();
    let p0 = payload.without("has_logo"@).without("backup_last_ms"@);
    let p1 = number_read(p0, "screensaver_idle_minutes"@);
    let p2 = number_read(p1, "chat_retention_months"@);
    let p3 = number_read(p2, "chat_retention_days"@);
    let p4 = number_read(p3, "chat_retention_hours"@);
    let p5 = number_read(p4, "chat_autoclose_screensaver_pct"@);
    let p6 = number_read(p5, "chat_autoclose_fallback_minutes"@);
    let p7 = number_read(p6, "chat_sound_volume"@);
    lemma_number_read(p0, "screensaver_idle_minutes"@, k);
    lemma_number_read(p1, "chat_retention_months"@, k);
    lemma_number_read(p2, "chat_retention_days"@, k);
    lemma_number_read(p3, "chat_retention_hours"@, k);
    lemma_number_read(p4, "chat_autoclose_screensaver_pct"@, k);
    lemma_number_read(p5, "chat_autoclose_fallback_minutes"@, k);
    lemma_number_read(p6, "chat_sound_volume"@, k);
    lemma_number_read(p7, "scanner_pair_ttl_minutes"@, k);
    assert(p0.get(k) == payload.get(k));
}

/// A logo is a file named `logo`, whatever its extension and the case of its
/// letters.
pub proof fn law_logo_name(front: Seq<char>, ext: Seq<char>)
    requires
        forall|k: int| 0 <= k < ext.len() ==> #[trigger] ext[k] != '.',
        front.len() > 0,
        !(front == seq!['.'] && ext.len() == 0),
    ensures
        is_logo(front + seq!['.'] + ext) <==> text::all_small(front) == "logo"@,
        is_logo(ext) <==> text::all_small(ext) == "logo"@,
{
    names::law_extension(front, ext);
}

/// The logo is the first file that is one.
pub proof fn law_logo_place(files: Seq<Seq<char>>, i: int)
    ensures
        logo_place(files) matches Some(p) ==> 0 <= p < files.len() && is_logo(files[p]) && forall|
            j: int,
        |
            0 <= j < p ==> !is_logo(#[trigger] files[j]),
        logo_place(files) is None && 0 <= i < files.len() ==> !is_logo(files[i]),
{
    let wanted = |f: Seq<char>| is_logo(f);
    lists::lemma_first_found(files, wanted);
    if let Some(p) = logo_place(files) {
        assert(wanted(files[p]));
        assert forall|j: int| 0 <= j < p implies !is_logo(#[trigger] files[j]) by {
            assert(!wanted(files[j]));
        }
    } else if 0 <= i < files.len() {
        assert(!wanted(files[i]));
    }
}

/// The file to serve as the logo, and its type of content.
pub open spec fn logo_served(files: Seq<Seq<char>>) -> Result<(int, Seq<char>), (Status, Seq<char>)> {
    match logo_place(files) {
        Some(i) => Ok((i, photos::file_mime(files[i]))),
        None => Err((Status::NotFound, "no logo"@)),
    }
}

/// What is served is a logo, the first there is, as what its extension says;
/// where there is none, that is said.
pub proof fn law_logo_served(files: Seq<Seq<char>>)
    ensures
        logo_served(files) matches Ok(p) ==> 0 <= p.0 < files.len() && is_logo(files[p.0]) && (forall|
            j: int,
        |
            0 <= j < p.0 ==> !is_logo(#[trigger] files[j])) && p.1 == photos::file_mime(files[p.0]),
        logo_served(files) matches Err(e) ==> e == (Status::NotFound, "no logo"@) && forall|j: int|
            0 <= j < files.len() ==> !is_logo(#[trigger] files[j]),
{
    law_logo_place(files, 0);
    if logo_place(files) is None {
        assert forall|j: int| 0 <= j < files.len() implies !is_logo(#[trigger] files[j]) by {
            law_logo_place(files, j);
        }
    }
}

} // verus!
