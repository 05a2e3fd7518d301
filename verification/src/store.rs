//! The store: what lies on the shelves.
use crate::autofill;
use crate::digits;
use crate::failure;
use crate::failure::{fail, Failure, Status};
use crate::json;
use crate::json::{Doc, Json};
use crate::lists;
use crate::names;
use crate::order;
use crate::order::Ranking;
use crate::photos;
use crate::text;
use vstd::prelude::*;

verus! {

/// An item as it is stored: its directory, its record and its pictures.
pub struct ItemFolder {
    pub id: String,
    pub record: Json,
    pub images: Vec<String>,
}

/// What a stored item is.
pub struct ItemDoc {
    pub id: Seq<char>,
    pub record: Doc,
    pub images: Seq<Seq<char>>,
}

impl View for ItemFolder {
    type V = ItemDoc;

    open spec fn view(&self) -> ItemDoc {
        ItemDoc { id: self.id@, record: self.record@, images: text::texts(self.images@) }
    }
}

pub open spec fn item_docs(v: Seq<ItemFolder>) -> Seq<ItemDoc> {
    v.map_values(|i: ItemFolder| i@)
}

/// A number in a record, without its fraction; zero where there is none.
pub open spec fn number_in(d: Doc, k: Seq<char>) -> i64 {
    match d.get(k) {
        Some(v) => match v.rounded() {
            Some(n) => n,
            None => 0,
        },
        None => 0,
    }
}

pub fn num_field(d: &Json, k: &str) -> (r: i64)
    ensures
        r == number_in(d@, k@),
{
    match d.get(k) {
        Some(v) => match v.rounded() {
            Some(n) => n,
            None => 0,
        },
        None => 0,
    }
}

/// The code in an item of a list, without the space around it.
pub open spec fn code_item(d: Doc) -> Option<Seq<char>> {
    match d.text() {
        Some(s) => if text::trimmed(s).len() > 0 {
            Some(text::trimmed(s))
        } else {
            None
        },
        None => None,
    }
}

/// The codes of an item.
pub open spec fn codes_in(d: Doc) -> Seq<Seq<char>> {
    match d.items_at("barcodes"@) {
        Some(v) => lists::picked(v, |i: Doc| code_item(i)),
        None => Seq::<Seq<char>>::empty(),
    }
}

/// The order of names.
pub open spec fn by_name() -> spec_fn(Seq<char>, Seq<char>) -> bool {
    |a: Seq<char>, b: Seq<char>| text::in_order(a, b)
}

pub struct ByName {}

impl Ranking<String> for ByName {
    open spec fn le(&self) -> spec_fn(String, String) -> bool {
        |a: String, b: String| by_name()(a@, b@)
    }

    fn may_precede(&self, a: &String, b: &String) -> (r: bool) {
        text::ordered(a.as_str(), b.as_str())
    }
}

/// An item as it stands in the list.
pub open spec fn item_row(i: ItemDoc) -> Doc {
    let d = i.record;
    Doc::object().with("id"@, Doc::Str(i.id)).with("name"@, Doc::Str(d.text_in("name"@))).with(
        "id_number"@,
        Doc::Str(d.text_in("id_number"@)),
    ).with("producer"@, Doc::Str(d.text_in("producer"@))).with(
        "description"@,
        Doc::Str(d.text_in("description"@)),
    ).with("notes"@, Doc::Str(d.text_in("notes"@))).with(
        "division_id"@,
        Doc::Str(d.text_in("division_id"@)),
    ).with("min_count"@, Doc::num(number_in(d, "min_count"@) as int)).with(
        "max_count"@,
        Doc::num(number_in(d, "max_count"@) as int),
    ).with("current_count"@, Doc::num(number_in(d, "current_count"@) as int)).with(
        "wheel_size"@,
        Doc::Str(d.text_in("wheel_size"@)),
    ).with("wheel_season"@, Doc::Str(d.text_in("wheel_season"@))).with(
        "wheel_type"@,
        Doc::Str(d.text_in("wheel_type"@)),
    ).with("wheel_pcd"@, Doc::Str(d.text_in("wheel_pcd"@))).with(
        "wheel_et"@,
        Doc::Str(d.text_in("wheel_et"@)),
    ).with("barcodes"@, Doc::Array(autofill::text_docs(codes_in(d)))).with(
        "images"@,
        Doc::Array(autofill::text_docs(order::ranked(i.images, by_name()))),
    ).with("created_ms"@, Doc::num(d.whole_or("created_ms"@, 0) as int)).with(
        "updated_ms"@,
        Doc::num(d.whole_or("updated_ms"@, 0) as int),
    )
}

fn read_codes(d: &Json) -> (r: Vec<String>)
    ensures
        text::texts(r@) == codes_in(d@),
{
    let mut out: Vec<String> = Vec::new();
    let ghost f = |i: Doc| code_item(i);
    assert(text::texts(out@) =~= Seq::<Seq<char>>::empty());
    if let Some(v) = d.items_at("barcodes") {
        let ghost all = json::docs(v@);
        let mut i: usize = 0;
        assert(text::texts(out@) =~= lists::picked(all.take(0), f));
        while i < v.len()
            invariant
                i <= v@.len(),
                all == json::docs(v@),
                f == (|i: Doc| code_item(i)),
                text::texts(out@) == lists::picked(all.take(i as int), f),
            decreases v@.len() - i,
        {
            proof {
                lists::lemma_picked_step(all, i as int, f);
                assert(all[i as int] == v@[i as int]@);
            }
            if let Some(s) = v[i].text() {
                let code = text::trim(s);
                if !code.as_str().is_empty() {
                    let ghost before = out@;
                    out.push(code);
                    assert(text::texts(out@) =~= text::texts(before).push(code@));
                }
            }
            i = i + 1;
        }
        assert(all.take(i as int) =~= all);
    }
    out
}

fn copy_texts(v: &Vec<String>) -> (r: Vec<String>)
    ensures
        text::texts(r@) == text::texts(v@),
{
    let mut out: Vec<String> = Vec::new();
    let mut i: usize = 0;
    while i < v.len()
        invariant
            i <= v@.len(),
            out@.len() == i,
            forall|k: int| 0 <= k < i ==> (#[trigger] out@[k])@ == v@[k]@,
        decreases v@.len() - i,
    {
        out.push(v[i].clone());
        i = i + 1;
    }
    assert(text::texts(out@) =~= text::texts(v@));
    out
}

fn sort_names(v: &Vec<String>) -> (r: Vec<String>)
    ensures
        text::texts(r@) == order::ranked(text::texts(v@), by_name()),
{
    let copy = copy_texts(v);
    let rank = ByName {  };
    proof {
        order::lemma_ranked_map(copy@, rank.le(), |s: String| s@, by_name());
    }
    order::sort(copy, &rank)
}

/// An item as it stands in the list.
pub fn read_store_item_dir(i: &ItemFolder) -> (r: Json)
    ensures
        r@ == item_row(i@),
{
    let d = &i.record;
    let codes = autofill::list_of_texts(&read_codes(d));
    let images = autofill::list_of_texts(&sort_names(&i.images));
    Json::object().with_text("id", i.id.as_str()).with_text(
        "name",
        d.text_in("name").as_str(),
    ).with_text("id_number", d.text_in("id_number").as_str()).with_text(
        "producer",
        d.text_in("producer").as_str(),
    ).with_text("description", d.text_in("description").as_str()).with_text(
        "notes",
        d.text_in("notes").as_str(),
    ).with_text("division_id", d.text_in("division_id").as_str()).with(
        "min_count",
        Json::of_i64(num_field(d, "min_count")),
    ).with("max_count", Json::of_i64(num_field(d, "max_count"))).with(
        "current_count",
        Json::of_i64(num_field(d, "current_count")),
    ).with_text("wheel_size", d.text_in("wheel_size").as_str()).with_text(
        "wheel_season",
        d.text_in("wheel_season").as_str(),
    ).with_text("wheel_type", d.text_in("wheel_type").as_str()).with_text(
        "wheel_pcd",
        d.text_in("wheel_pcd").as_str(),
    ).with_text("wheel_et", d.text_in("wheel_et").as_str()).with("barcodes", codes).with(
        "images",
        images,
    ).with("created_ms", Json::of_u64(d.whole_or("created_ms", 0))).with(
        "updated_ms",
        Json::of_u64(d.whole_or("updated_ms", 0)),
    )
}

pub open spec fn item_rows(items: Seq<ItemDoc>) -> Seq<Doc> {
    items.map_values(|i: ItemDoc| item_row(i))
}

/// All items as they stand in the list.
pub fn read_all_store_items(items: &Vec<ItemFolder>) -> (r: Vec<Json>)
    ensures
        json::docs(r@) == item_rows(item_docs(items@)),
{
    let ghost all = item_docs(items@);
    let mut out: Vec<Json> = Vec::new();
    let mut i: usize = 0;
    while i < items.len()
        invariant
            i <= items@.len(),
            all == item_docs(items@),
            out@.len() == i,
            forall|k: int| 0 <= k < i ==> (#[trigger] out@[k])@ == item_row(all[k]),
        decreases items@.len() - i,
    {
        out.push(read_store_item_dir(&items[i]));
        i = i + 1;
    }
    assert(json::docs(out@) =~= item_rows(all));
    out
}

/// Whether an item is shown when those of a division are asked for.
pub open spec fn in_division(d: Doc, division: Seq<char>) -> bool {
    d.text_in("division_id"@) == division
}

/// The items to show: those of a division, or all where none is named.
pub open spec fn shown_items(rows: Seq<Doc>, division: Option<Seq<char>>) -> Seq<Doc> {
    match division {
        Some(div) if div.len() > 0 => rows.filter(|d: Doc| in_division(d, div)),
        _ => rows,
    }
}

/// The list of items, the last changed first.
pub open spec fn items_answer(rows: Seq<Doc>, division: Option<Seq<char>>) -> Doc {
    failure::listing(
        order::ranked(shown_items(rows, division), order::newest_first("updated_ms"@)),
    )
}

fn only_division(rows: Vec<Json>, division: &str) -> (r: Vec<Json>)
    ensures
        json::docs(r@) == json::docs(rows@).filter(|d: Doc| in_division(d, division@)),
{
    let ghost keep = |d: Doc| in_division(d, division@);
    let ghost all = json::docs(rows@);
    let mut out: Vec<Json> = Vec::new();
    let mut i: usize = 0;
    proof {
        lists::lemma_filter_none(keep);
        assert(all.take(0) =~= Seq::<Doc>::empty());
        assert(json::docs(out@) =~= Seq::<Doc>::empty());
    }
    while i < rows.len()
        invariant
            i <= rows@.len(),
            all == json::docs(rows@),
            keep == (|d: Doc| in_division(d, division@)),
            json::docs(out@) == all.take(i as int).filter(keep),
        decreases rows@.len() - i,
    {
        proof {
            lists::lemma_filter_step(all, i as int, keep);
            assert(all[i as int] == rows@[i as int]@);
        }
        if text::same(rows[i].text_in("division_id").as_str(), division) {
            let ghost before = out@;
            let copy = rows[i].clone();
            out.push(copy);
            assert(json::docs(out@) =~= json::docs(before).push(copy@));
        }
        i = i + 1;
    }
    assert(all.take(i as int) =~= all);
    out
}

/// The list of items.
pub fn list_store_items(items: &Vec<ItemFolder>, division: Option<&str>) -> (r: Json)
    ensures
        r@ == items_answer(item_rows(item_docs(items@)), json::opt_str(division)),
{
    let rows = read_all_store_items(items);
    let shown = match division {
        Some(div) => {
            if div.is_empty() {
                rows
            } else {
                only_division(rows, div)
            }
        },
        None => rows,
    };
    failure::list_answer(order::sort_newest_first(shown, "updated_ms"))
}

/// The item that is asked for, where it is there and can be read.
pub fn get_store_item(item: Option<&ItemFolder>) -> (r: Result<Json, Failure>)
    ensures
        failure::outcome(r) == match item {
            Some(i) => Ok(item_row(i@)),
            None => Err((Status::NotFound, "store item not found"@)),
        },
{
    match item {
        Some(i) => Ok(read_store_item_dir(i)),
        None => Err(fail(Status::NotFound, "store item not found")),
    }
}

/// A count as it was sent: a number, or a text that holds one; zero where it
/// is neither.
pub open spec fn count_said(d: Doc) -> i64 {
    match d.rounded() {
        Some(n) => n,
        None => match d.text() {
            Some(s) => match digits::read_signed(text::trimmed(s)) {
                Some(n) => n,
                None => 0,
            },
            None => 0,
        },
    }
}

/// A document with the count in a member made a whole number, where it is
/// there.
pub open spec fn count_fixed(d: Doc, k: Seq<char>) -> Doc {
    match d.get(k) {
        Some(v) => d.with(k, Doc::num(count_said(v) as int)),
        None => d,
    }
}

/// The codes that are sent: a list, or a text with a code on each line or
/// between commas.
pub open spec fn codes_sent(raw: Option<Doc>) -> Seq<Seq<char>> {
    match raw {
        Some(Doc::Array(v)) => lists::picked(v, |i: Doc| code_item(i)),
        Some(Doc::Str(s)) => lists::picked(
            text::pieces(s, text::Cut::LineOrComma),
            |p: Seq<char>| code_item(Doc::Str(p)),
        ),
        _ => Seq::<Seq<char>>::empty(),
    }
}

/// The codes to keep: each once, whatever the case of its letters.
pub open spec fn codes_kept(raw: Option<Doc>) -> Seq<Seq<char>> {
    lists::first_by(codes_sent(raw), |c: Seq<char>| text::lowered(c))
}

/// An item in its proper form; what is no object stays as it is.
pub open spec fn proper_item(d: Doc) -> Doc {
    count_fixed(count_fixed(count_fixed(d, "min_count"@), "max_count"@), "current_count"@).with(
        "barcodes"@,
        Doc::Array(autofill::text_docs(codes_kept(d.get("barcodes"@)))),
    )
}

fn read_count(d: &Json) -> (r: i64)
    ensures
        r == count_said(d@),
{
    if let Some(n) = d.rounded() {
        return n;
    }
    match d.text() {
        Some(s) => match digits::parse_i64(text::trim(s).as_str()) {
            Some(n) => n,
            None => 0,
        },
        None => 0,
    }
}

fn fix_count(d: Json, k: &str) -> (r: Json)
    ensures
        r@ == count_fixed(d@, k@),
{
    let n: i64 = match d.get(k) {
        Some(v) => read_count(v),
        None => return d,
    };
    d.with(k, Json::of_i64(n))
}

fn sent_codes(raw: Option<&Json>) -> (r: Vec<String>)
    ensures
        text::texts(r@) == codes_sent(json::opt_doc(raw)),
{
    let mut out: Vec<String> = Vec::new();
    assert(text::texts(out@) =~= Seq::<Seq<char>>::empty());
    match raw {
        Some(Json::Array(v)) => {
            proof {
                json::lemma_array(*v);
            }
            let ghost all = json::docs(v@);
            let ghost f = |i: Doc| code_item(i);
            let mut i: usize = 0;
            assert(text::texts(out@) =~= lists::picked(all.take(0), f));
            while i < v.len()
                invariant
                    i <= v@.len(),
                    all == json::docs(v@),
                    f == (|i: Doc| code_item(i)),
                    text::texts(out@) == lists::picked(all.take(i as int), f),
                decreases v@.len() - i,
            {
                proof {
                    lists::lemma_picked_step(all, i as int, f);
                    assert(all[i as int] == v@[i as int]@);
                }
                if let Some(s) = v[i].text() {
                    let code = text::trim(s);
                    if !code.as_str().is_empty() {
                        let ghost before = out@;
                        out.push(code);
                        assert(text::texts(out@) =~= text::texts(before).push(code@));
                    }
                }
                i = i + 1;
            }
            assert(all.take(i as int) =~= all);
        },
        Some(Json::Str(s)) => {
            let parts = text::split(s.as_str(), text::Cut::LineOrComma);
            let ghost all = text::texts(parts@);
            let ghost f = |p: Seq<char>| code_item(Doc::Str(p));
            let mut i: usize = 0;
            assert(text::texts(out@) =~= lists::picked(all.take(0), f));
            while i < parts.len()
                invariant
                    i <= parts@.len(),
                    all == text::texts(parts@),
                    f == (|p: Seq<char>| code_item(Doc::Str(p))),
                    text::texts(out@) == lists::picked(all.take(i as int), f),
                decreases parts@.len() - i,
            {
                proof {
                    lists::lemma_picked_step(all, i as int, f);
                    assert(all[i as int] == parts@[i as int]@);
                }
                let code = text::trim(parts[i].as_str());
                if !code.as_str().is_empty() {
                    let ghost before = out@;
                    out.push(code);
                    assert(text::texts(out@) =~= text::texts(before).push(code@));
                }
                i = i + 1;
            }
            assert(all.take(i as int) =~= all);
        },
        _ => {},
    }
    out
}

fn kept_codes(sent: &Vec<String>) -> (r: Vec<String>)
    ensures
        text::texts(r@) == lists::first_by(
            text::texts(sent@),
            |c: Seq<char>| text::lowered(c),
        ),
{
    let ghost all = text::texts(sent@);
    let ghost key = |c: Seq<char>| text::lowered(c);
    let mut out: Vec<String> = Vec::new();
    let mut seen: Vec<String> = Vec::new();
    let mut i: usize = 0;
    assert(text::texts(out@) =~= lists::first_by(all.take(0), key));
    assert(text::texts(seen@) =~= text::texts(out@).map_values(key));
    while i < sent.len()
        invariant
            i <= sent@.len(),
            all == text::texts(sent@),
            key == (|c: Seq<char>| text::lowered(c)),
            text::texts(out@) == lists::first_by(all.take(i as int), key),
            text::texts(seen@) == text::texts(out@).map_values(key),
        decreases sent@.len() - i,
    {
        let code = sent[i].as_str();
        let low = text::lower(code);
        let ghost before = text::texts(out@);
        let ghost lows = text::texts(seen@);
        let known = text::one_of(low.as_str(), &seen);
        proof {
            assert(all.take(i + 1).drop_last() =~= all.take(i as int));
            assert(all.take(i + 1).last() == code@);
            if known {
                let j = choose|j: int| 0 <= j < lows.len() && lows[j] == low@;
                assert(key(before[j]) == key(code@));
            } else {
                assert forall|j: int| 0 <= j < before.len() implies key(#[trigger] before[j])
                    != key(code@) by {
                    assert(lows[j] == key(before[j]));
                    assert(lows.contains(lows[j]));
                }
            }
        }
        if !known {
            let ghost out0 = out@;
            let ghost seen0 = seen@;
            let copy = code.to_owned();
            out.push(copy);
            seen.push(low);
            assert(text::texts(out@) =~= text::texts(out0).push(copy@));
            assert(text::texts(seen@) =~= text::texts(seen0).push(low@));
            assert(text::texts(seen@) =~= text::texts(out@).map_values(key));
        }
        i = i + 1;
    }
    assert(all.take(i as int) =~= all);
    out
}

/// An item in its proper form.
pub fn normalize_store_payload(payload: Json) -> (r: Json)
    ensures
        r@ == proper_item(payload@),
{
    let codes = autofill::list_of_texts(&kept_codes(&sent_codes(payload.get("barcodes"))));
    fix_count(fix_count(fix_count(payload, "min_count"), "max_count"), "current_count").with(
        "barcodes",
        codes,
    )
}

/// The record of an item that is stored.
pub open spec fn item_record(payload: Doc, id: Seq<char>, created: u64, now: u64) -> Doc {
    proper_item(payload).with("id"@, Doc::Str(id)).with("created_ms"@, Doc::num(created as int)).with(
        "updated_ms"@,
        Doc::num(now as int),
    )
}

/// The record of a new item.
pub fn create_store_item(payload: Json, id: &str, now: u64) -> (r: Json)
    ensures
        r@ == item_record(payload@, id@, now, now),
        r@ == item_made(payload@, id@, now),
{
    normalize_store_payload(payload).with_text("id", id).with(
        "created_ms",
        Json::of_u64(now),
    ).with("updated_ms", Json::of_u64(now))
}

/// The record to store for an item that is changed; `existing` is what was
/// stored, where its directory is there.
pub fn update_store_item(payload: Json, existing: Option<&Json>, id: &str, now: u64) -> (r: Result<
    Json,
    Failure,
>)
    ensures
        failure::outcome(r) == match existing {
            Some(e) => Ok(item_record(payload@, id@, e@.whole_or("created_ms"@, now), now)),
            None => Err((Status::NotFound, "store item not found"@)),
        },
        failure::outcome(r) == item_changed(payload@, json::opt_doc(existing), id@, now),
{
    match existing {
        Some(e) => {
            let created = e.whole_or("created_ms", now);
            Ok(
                normalize_store_payload(payload).with_text("id", id).with(
                    "created_ms",
                    Json::of_u64(created),
                ).with("updated_ms", Json::of_u64(now)),
            )
        },
        None => Err(fail(Status::NotFound, "store item not found")),
    }
}

/// The file in which a picture of an item is kept that is sent at some
/// moment.
pub open spec fn image_name(payload: Doc, now: nat) -> Seq<char> {
    digits::decimal(now) + "-"@ + names::safe_name(payload.text_or("filename"@, "image.png"@))
}

/// A picture of an item to keep: its bytes and the name of its file.
pub fn upload_store_item_image(payload: &Json, now: u128) -> (r: Result<(Vec<u8>, String), Failure>)
    ensures
        match r {
            Ok(p) => photos::uploaded(payload@) == Ok::<Seq<u8>, (Status, Seq<char>)>(p.0@) && p.1@
                == image_name(payload@, now as nat),
            Err(f) => photos::uploaded(payload@) == Err::<Seq<u8>, (Status, Seq<char>)>(f@),
        },
{
    match photos::upload_bytes(payload) {
        Ok(bytes) => {
            let safe = names::sanitize_filename(payload.text_or("filename", "image.png").as_str());
            let stamp = digits::number_text(now);
            Ok((bytes, text::cat3(stamp.as_str(), "-", safe.as_str())))
        },
        Err(f) => Err(f),
    }
}

/// The record to write when an item got a picture; nothing is written over
/// what is no object.
pub fn touch_item(record: Json, now: u64) -> (r: Option<Json>)
    ensures
        json::opt_json(r) == if record@.is_object() {
            Some(record@.with("updated_ms"@, Doc::num(now as int)))
        } else {
            None
        },
        json::opt_json(r) == item_touched(record@, now),
{
    if record.is_object() {
        Some(record.with("updated_ms", Json::of_u64(now)))
    } else {
        None
    }
}

/// The answer to a picture that was stored.
pub open spec fn image_stored(file: Seq<char>) -> Doc {
    failure::done().with("filename"@, Doc::Str(file))
}

pub fn image_answer(file: &str) -> (r: Json)
    ensures
        r@ == image_stored(file@),
{
    failure::ok_answer().with_text("filename", file)
}

proof fn lemma_code_settles(d: Doc)
    ensures
        code_item(d) matches Some(c) ==> code_item(Doc::Str(c)) == Some(c),
{
    if let Some(s) = d.text() {
        text::law_trim_settles(s);
    }
}

/// Whether a code stands as it is kept.
pub open spec fn code_is_tidy(c: Seq<char>) -> bool {
    c.len() > 0 && text::trimmed(c) == c
}

proof fn lemma_sent_tidy(raw: Option<Doc>, i: int)
    requires
        0 <= i < codes_sent(raw).len(),
    ensures
        code_is_tidy(codes_sent(raw)[i]),
{
    match raw {
        Some(Doc::Array(v)) => {
            let f = |d: Doc| code_item(d);
            lists::lemma_picked_from(v, f, i);
            let j = choose|j: int| 0 <= j < v.len() && f(#[trigger] v[j]) == Some(
                lists::picked(v, f)[i],
            );
            lemma_code_settles(v[j]);
        },
        Some(Doc::Str(s)) => {
            let v = text::pieces(s, text::Cut::LineOrComma);
            let f = |p: Seq<char>| code_item(Doc::Str(p));
            lists::lemma_picked_from(v, f, i);
            let j = choose|j: int| 0 <= j < v.len() && f(#[trigger] v[j]) == Some(
                lists::picked(v, f)[i],
            );
            lemma_code_settles(Doc::Str(v[j]));
        },
        _ => {},
    }
}

/// The codes of an item are trimmed, none is empty, and no two differ only in
/// the case of their letters.
pub proof fn law_codes_kept(raw: Option<Doc>)
    ensures
        lists::keys_differ(codes_kept(raw), |c: Seq<char>| text::lowered(c)),
        forall|i: int| 0 <= i < codes_kept(raw).len() ==> code_is_tidy(#[trigger] codes_kept(raw)[i]),
{
    let key = |c: Seq<char>| text::lowered(c);
    let sent = codes_sent(raw);
    lists::lemma_first_by(sent, key);
    assert forall|i: int| 0 <= i < codes_kept(raw).len() implies code_is_tidy(
        #[trigger] codes_kept(raw)[i],
    ) by {
        assert(sent.contains(codes_kept(raw)[i]));
        let j = choose|j: int| 0 <= j < sent.len() && sent[j] == codes_kept(raw)[i];
        lemma_sent_tidy(raw, j);
    }
}

proof fn lemma_tidy_again(codes: Seq<Seq<char>>)
    requires
        forall|i: int| 0 <= i < codes.len() ==> code_is_tidy(#[trigger] codes[i]),
    ensures
        lists::picked(autofill::text_docs(codes), |i: Doc| code_item(i)) == codes,
    decreases codes.len(),
{
    if codes.len() > 0 {
        let front = codes.drop_last();
        assert forall|i: int| 0 <= i < front.len() implies code_is_tidy(#[trigger] front[i]) by {
            assert(front[i] == codes[i]);
        }
        lemma_tidy_again(front);
        assert(autofill::text_docs(codes).drop_last() =~= autofill::text_docs(front));
        assert(code_is_tidy(codes[codes.len() - 1]));
        assert(autofill::text_docs(codes).last() == Doc::Str(codes.last()));
        assert(codes =~= front.push(codes.last()));
    }
}

proof fn lemma_item_names()
    ensures
        "min_count"@ != "max_count"@,
        "min_count"@ != "current_count"@,
        "max_count"@ != "current_count"@,
        "min_count"@ != "barcodes"@,
        "max_count"@ != "barcodes"@,
        "current_count"@ != "barcodes"@,
{
    reveal_strlit("min_count");
    reveal_strlit("max_count");
    reveal_strlit("current_count");
    reveal_strlit("barcodes");
    assert("min_count"@[1] != "max_count"@[1]);
    assert("min_count"@.len() == 9 && "max_count"@.len() == 9 && "current_count"@.len() == 13);
    assert("barcodes"@.len() == 8);
}

/// An item in its proper form stays as it is when it is put in its proper
/// form again.
pub proof fn law_item_settles(d: Doc)
    ensures
        proper_item(proper_item(d)) == proper_item(d),
{
    if d is Object {
        lemma_item_names();
        let raw = d.get("barcodes"@);
        let once = proper_item(d);
        law_codes_kept(raw);
        lemma_tidy_again(codes_kept(raw));
        lists::lemma_all_first_by(codes_kept(raw), |c: Seq<char>| text::lowered(c));
        assert(codes_kept(once.get("barcodes"@)) == codes_kept(raw));
        let a = count_fixed(once, "min_count"@);
        assert(a->Object_0 =~= once->Object_0);
        let b = count_fixed(a, "max_count"@);
        assert(b->Object_0 =~= once->Object_0);
        let c = count_fixed(b, "current_count"@);
        assert(c->Object_0 =~= once->Object_0);
        assert(proper_item(once)->Object_0 =~= once->Object_0);
    }
}

/// The codes that were stored for an item are those that its row shows.
pub proof fn law_codes_shown(payload: Doc, id: Seq<char>, created: u64, now: u64)
    requires
        payload.is_object(),
    ensures
        codes_in(item_record(payload, id, created, now)) == codes_kept(payload.get("barcodes"@)),
{
    reveal_strlit("barcodes");
    reveal_strlit("id");
    reveal_strlit("created_ms");
    reveal_strlit("updated_ms");
    assert("barcodes"@.len() == 8 && "id"@.len() == 2);
    assert("created_ms"@.len() == 10 && "updated_ms"@.len() == 10);
    law_codes_kept(payload.get("barcodes"@));
    lemma_tidy_again(codes_kept(payload.get("barcodes"@)));
}

/// The list of a division shows all its items and no others.
pub proof fn law_division_shown(rows: Seq<Doc>, division: Seq<char>, d: Doc)
    requires
        division.len() > 0,
    ensures
        shown_items(rows, Some(division)).contains(d) <==> rows.contains(d) && in_division(
            d,
            division,
        ),
{
    lists::lemma_filter_holds(rows, |d: Doc| in_division(d, division), d);
}

/// No two of these names are the same.
proof fn lemma_row_names()
    ensures
        "id"@.len() == 2,
        "name"@.len() == 4,
        "id_number"@.len() == 9,
        "producer"@.len() == 8,
        "description"@.len() == 11,
        "notes"@.len() == 5,
        "division_id"@.len() == 11,
        "min_count"@.len() == 9,
        "max_count"@.len() == 9,
        "current_count"@.len() == 13,
        "wheel_size"@.len() == 10,
        "wheel_season"@.len() == 12,
        "wheel_type"@.len() == 10,
        "wheel_pcd"@.len() == 9,
        "wheel_et"@.len() == 8,
        "barcodes"@.len() == 8,
        "images"@.len() == 6,
        "created_ms"@.len() == 10,
        "updated_ms"@.len() == 10,
        "ok"@.len() == 2,
        "filename"@.len() == 8,
        "items"@.len() == 5,
        "id"@ != "ok"@,
        "id_number"@ != "min_count"@,
        "id_number"@ != "max_count"@,
        "id_number"@ != "wheel_pcd"@,
        "producer"@ != "wheel_et"@,
        "producer"@ != "barcodes"@,
        "producer"@ != "filename"@,
        "description"@ != "division_id"@,
        "notes"@ != "items"@,
        "min_count"@ != "max_count"@,
        "min_count"@ != "wheel_pcd"@,
        "max_count"@ != "wheel_pcd"@,
        "wheel_size"@ != "wheel_type"@,
        "wheel_size"@ != "created_ms"@,
        "wheel_size"@ != "updated_ms"@,
        "wheel_type"@ != "created_ms"@,
        "wheel_type"@ != "updated_ms"@,
        "wheel_et"@ != "barcodes"@,
        "wheel_et"@ != "filename"@,
        "barcodes"@ != "filename"@,
        "created_ms"@ != "updated_ms"@,
{
    reveal_strlit("id");
    reveal_strlit("name");
    reveal_strlit("id_number");
    reveal_strlit("producer");
    reveal_strlit("description");
    reveal_strlit("notes");
    reveal_strlit("division_id");
    reveal_strlit("min_count");
    reveal_strlit("max_count");
    reveal_strlit("current_count");
    reveal_strlit("wheel_size");
    reveal_strlit("wheel_season");
    reveal_strlit("wheel_type");
    reveal_strlit("wheel_pcd");
    reveal_strlit("wheel_et");
    reveal_strlit("barcodes");
    reveal_strlit("images");
    reveal_strlit("created_ms");
    reveal_strlit("updated_ms");
    reveal_strlit("ok");
    reveal_strlit("filename");
    reveal_strlit("items");
    assert("id"@[0] != "ok"@[0]);
    assert("id_number"@[0] != "min_count"@[0]);
    assert("id_number"@[0] != "max_count"@[0]);
    assert("id_number"@[0] != "wheel_pcd"@[0]);
    assert("producer"@[0] != "wheel_et"@[0]);
    assert("producer"@[0] != "barcodes"@[0]);
    assert("producer"@[0] != "filename"@[0]);
    assert("description"@[1] != "division_id"@[1]);
    assert("notes"@[0] != "items"@[0]);
    assert("min_count"@[1] != "max_count"@[1]);
    assert("min_count"@[0] != "wheel_pcd"@[0]);
    assert("max_count"@[0] != "wheel_pcd"@[0]);
    assert("wheel_size"@[6] != "wheel_type"@[6]);
    assert("wheel_size"@[0] != "created_ms"@[0]);
    assert("wheel_size"@[0] != "updated_ms"@[0]);
    assert("wheel_type"@[0] != "created_ms"@[0]);
    assert("wheel_type"@[0] != "updated_ms"@[0]);
    assert("wheel_et"@[0] != "barcodes"@[0]);
    assert("wheel_et"@[0] != "filename"@[0]);
    assert("barcodes"@[0] != "filename"@[0]);
    assert("created_ms"@[0] != "updated_ms"@[0]);
}

/// The row of an item says under each name what its record says under it.
pub proof fn law_item_row(i: ItemDoc, k: Seq<char>)
    ensures
        item_row(i).text_at("id"@) == Some(i.id),
        k == "name"@ || k == "id_number"@ || k == "producer"@ || k == "description"@ || k
            == "notes"@ || k == "division_id"@ || k == "wheel_size"@ || k == "wheel_season"@ || k
            == "wheel_type"@ || k == "wheel_pcd"@ || k == "wheel_et"@ ==> item_row(i).text_at(k)
            == Some(i.record.text_in(k)),
        k == "created_ms"@ || k == "updated_ms"@ ==> item_row(i).whole_at(k) == Some(
            i.record.whole_or(k, 0),
        ),
{
    lemma_row_names();
}

/// The row of an item shows its three counts, without their fraction, and zero
/// for one that its record does not give as a number.
pub proof fn law_item_counts(i: ItemDoc, k: Seq<char>)
    requires
        k == "min_count"@ || k == "max_count"@ || k == "current_count"@,
    ensures
        item_row(i).get(k) matches Some(d) && d.integer() == Some(
            match i.record.get(k) {
                Some(Doc::Number(json::Num::PosInt(n))) => if n <= i64::MAX {
                    n as i64
                } else {
                    i64::MAX
                },
                Some(Doc::Number(json::Num::NegInt(n))) => n,
                Some(Doc::Number(json::Num::Float { bits, trunc })) => trunc,
                _ => 0,
            },
        ),
{
    lemma_row_names();
}

/// The row of an item lists its pictures by name: each as often as it is
/// there, and none before one whose name is smaller.
pub proof fn law_item_images(i: ItemDoc)
    ensures
        item_row(i).items_at("images"@) matches Some(v) && v.len() == i.images.len() && (forall|
            s: Seq<char>,
        |
            v.contains(Doc::Str(s)) <==> #[trigger] i.images.contains(s)) && forall|a: int, b: int|
            0 <= a < b < v.len() ==> (#[trigger] v[a]) is Str && (#[trigger] v[b]) is Str
                && text::in_order(v[a]->Str_0, v[b]->Str_0),
{
    lemma_row_names();
    let le = by_name();
    let r = order::ranked(i.images, le);
    let v = autofill::text_docs(r);
    assert(item_row(i).items_at("images"@) == Some(v));
    order::lemma_ranked_len(i.images, le);
    assert forall|s: Seq<char>| v.contains(Doc::Str(s)) <==> #[trigger] i.images.contains(s) by {
        order::lemma_ranked_holds(i.images, le, s);
        if v.contains(Doc::Str(s)) {
            let k = choose|k: int| 0 <= k < v.len() && v[k] == Doc::Str(s);
            assert(r[k] == s);
        }
        if r.contains(s) {
            let k = choose|k: int| 0 <= k < r.len() && r[k] == s;
            assert(v[k] == Doc::Str(s));
        }
    }
    assert forall|a: Seq<char>, b: Seq<char>| #[trigger] le(a, b) || le(b, a) by {
        text::lemma_in_order_total(a, b);
    }
    assert forall|a: Seq<char>, b: Seq<char>, c: Seq<char>|
        #[trigger] le(a, b) && #[trigger] le(b, c) implies le(a, c) by {
        text::lemma_in_order_through(a, b, c);
    }
    order::law_ranked_in_order(i.images, le);
    assert forall|a: int, b: int| 0 <= a < b < v.len() implies (#[trigger] v[a]) is Str && (
    #[trigger] v[b]) is Str && text::in_order(v[a]->Str_0, v[b]->Str_0) by {
        assert(le(r[a], r[b]));
    }
}

/// The row of an item lists the codes of its record, without the space around
/// them; one more code is one more in the row.
pub proof fn law_item_codes(i: ItemDoc, v: Seq<Doc>, code: Seq<char>)
    requires
        i.record.items_at("barcodes"@) == Some(v.push(Doc::Str(code))),
    ensures
        item_row(i).items_at("barcodes"@) == if text::trimmed(code).len() > 0 {
            Some(
                item_row(
                    (ItemDoc {
                        id: i.id,
                        record: i.record.with("barcodes"@, Doc::Array(v)),
                        images: i.images,
                    }),
                ).items_at("barcodes"@)->0.push(Doc::Str(text::trimmed(code))),
            )
        } else {
            item_row(
                (ItemDoc {
                    id: i.id,
                    record: i.record.with("barcodes"@, Doc::Array(v)),
                    images: i.images,
                }),
            ).items_at("barcodes"@)
        },
{
    lemma_row_names();
    let f = |d: Doc| code_item(d);
    lists::law_picked_grows(v, Doc::Str(code), f);
    let a = lists::picked(v, f);
    assert(autofill::text_docs(a.push(text::trimmed(code))) =~= autofill::text_docs(a).push(
        Doc::Str(text::trimmed(code)),
    ));
}

/// All items have a row, in their order.
pub proof fn law_item_rows(items: Seq<ItemDoc>, n: int)
    requires
        0 <= n < items.len(),
    ensures
        item_rows(items).len() == items.len(),
        item_rows(items)[n].text_at("id"@) == Some(items[n].id),
{
    law_item_row(items[n], "name"@);
}

/// The list of items: those of the division that is asked for, all where none
/// is, the last changed first.
pub proof fn law_items_listed(rows: Seq<Doc>, division: Option<Seq<char>>, d: Doc)
    ensures
        items_answer(rows, division).items_at("items"@) matches Some(v) && (v.contains(d) <==> (
        rows.contains(d) && (division matches Some(div) ==> div.len() == 0 || d.text_in(
            "division_id"@,
        ) == div))) && forall|i: int, j: int|
            0 <= i < j < v.len() ==> (#[trigger] v[i]).whole_or("updated_ms"@, 0) >= (
            #[trigger] v[j]).whole_or("updated_ms"@, 0),
        division is None || division == Some(Seq::<char>::empty()) ==> (items_answer(
            rows,
            division,
        ).items_at("items"@) matches Some(v) && v.to_multiset() == rows.to_multiset()),
{
    let shown = shown_items(rows, division);
    let le = order::newest_first("updated_ms"@);
    order::law_newest_first_whole(shown, "updated_ms"@);
    order::lemma_ranked_holds(shown, le, d);
    if let Some(div) = division {
        if div.len() > 0 {
            lists::lemma_filter_holds(rows, |d: Doc| in_division(d, div), d);
        }
    }
    assert(items_answer(rows, division).items_at("items"@) == Some(order::ranked(shown, le)));
}

/// An item that is sent keeps what it says; its counts become whole numbers,
/// read from a number or from a text.
pub proof fn law_item_form(d: Doc, k: Seq<char>, s: Seq<char>)
    requires
        d.is_object(),
    ensures
        k != "min_count"@ && k != "max_count"@ && k != "current_count"@ && k != "barcodes"@
            ==> proper_item(d).get(k) == d.get(k),
        k == "min_count"@ || k == "max_count"@ || k == "current_count"@ ==> {
            &&& !d.has(k) ==> !proper_item(d).has(k)
            &&& d.has(k) ==> proper_item(d).get(k) == Some(
                Doc::num(
                    match d.get(k)->0 {
                        Doc::Number(json::Num::PosInt(n)) => if n <= i64::MAX {
                            n as int
                        } else {
                            i64::MAX as int
                        },
                        Doc::Number(json::Num::NegInt(n)) => n as int,
                        Doc::Number(json::Num::Float { bits, trunc }) => trunc as int,
                        Doc::Str(t) => match digits::read_signed(text::trimmed(t)) {
                            Some(n) => n as int,
                            None => 0,
                        },
                        _ => 0,
                    },
                ),
            )
        },
{
    lemma_row_names();
}

proof fn lemma_kept_holds(raw: Option<Doc>, c: Seq<char>)
    ensures
        codes_kept(raw).contains(c) ==> codes_sent(raw).contains(c),
        codes_sent(raw).contains(c) ==> exists|j: int|
            0 <= j < codes_kept(raw).len() && text::lowered(#[trigger] codes_kept(raw)[j])
                == text::lowered(c),
{
    let key = |x: Seq<char>| text::lowered(x);
    let sent = codes_sent(raw);
    lists::lemma_first_by(sent, key);
    if codes_kept(raw).contains(c) {
        let j = choose|j: int| 0 <= j < codes_kept(raw).len() && codes_kept(raw)[j] == c;
        assert(sent.contains(codes_kept(raw)[j]));
    }
    if sent.contains(c) {
        lists::lemma_first_by_has(sent, key, c);
        let j = choose|j: int|
            0 <= j < lists::first_by(sent, key).len() && key(#[trigger] lists::first_by(sent, key)[j])
                == key(c);
        assert(text::lowered(codes_kept(raw)[j]) == text::lowered(c));
    }
}

/// Whether a list of codes holds one, whatever the case of its letters.
pub open spec fn holds_code(v: Seq<Doc>, code: Seq<char>) -> bool {
    exists|j: int|
        0 <= j < v.len() && (#[trigger] v[j] matches Doc::Str(s) && text::lowered(s)
            == text::lowered(code))
}

/// Whether a code is sent: in a list, or in a text between commas and ends of
/// lines.
pub open spec fn code_is_sent(raw: Option<Doc>, code: Seq<char>) -> bool {
    match raw {
        Some(Doc::Array(v)) => exists|i: int|
            0 <= i < v.len() && (#[trigger] v[i] matches Doc::Str(s) && text::trimmed(s) == code),
        Some(Doc::Str(s)) => exists|i: int|
            0 <= i < text::pieces(s, text::Cut::LineOrComma).len() && text::trimmed(
                #[trigger] text::pieces(s, text::Cut::LineOrComma)[i],
            ) == code,
        _ => false,
    }
}

proof fn lemma_sent_is(raw: Option<Doc>, c: Seq<char>)
    ensures
        codes_sent(raw).contains(c) <==> c.len() > 0 && code_is_sent(raw, c),
{
    let sent = codes_sent(raw);
    match raw {
        Some(Doc::Array(v)) => {
            let f = |d: Doc| code_item(d);
            if sent.contains(c) {
                let k = choose|k: int| 0 <= k < sent.len() && sent[k] == c;
                lists::lemma_picked_from(v, f, k);
                let j = choose|j: int| 0 <= j < v.len() && f(#[trigger] v[j]) == Some(sent[k]);
                assert(v[j] is Str);
            }
            if c.len() > 0 && code_is_sent(raw, c) {
                let i = choose|i: int|
                    0 <= i < v.len() && (#[trigger] v[i] matches Doc::Str(s) && text::trimmed(s)
                        == c);
                assert(f(v[i]) == Some(c));
                lists::lemma_picked_has(v, f, i);
            }
        },
        Some(Doc::Str(s)) => {
            let v = text::pieces(s, text::Cut::LineOrComma);
            let f = |p: Seq<char>| code_item(Doc::Str(p));
            if sent.contains(c) {
                let k = choose|k: int| 0 <= k < sent.len() && sent[k] == c;
                lists::lemma_picked_from(v, f, k);
                let j = choose|j: int| 0 <= j < v.len() && f(#[trigger] v[j]) == Some(sent[k]);
                assert(text::trimmed(v[j]) == c);
            }
            if c.len() > 0 && code_is_sent(raw, c) {
                let i = choose|i: int| 0 <= i < v.len() && text::trimmed(#[trigger] v[i]) == c;
                assert(f(v[i]) == Some(c));
                lists::lemma_picked_has(v, f, i);
            }
        },
        _ => {},
    }
}

/// The codes of an item are those that are sent: none is lost but one that
/// differs from another only in the case of its letters, and none is added.
pub proof fn law_item_codes_sent(d: Doc, code: Seq<char>)
    requires
        d.is_object(),
        code.len() > 0,
    ensures
        proper_item(d).items_at("barcodes"@) is Some,
        code_is_sent(d.get("barcodes"@), code) ==> holds_code(
            proper_item(d).items_at("barcodes"@)->0,
            code,
        ),
        proper_item(d).items_at("barcodes"@)->0.contains(Doc::Str(code)) ==> code_is_sent(
            d.get("barcodes"@),
            code,
        ),
{
    lemma_row_names();
    let raw = d.get("barcodes"@);
    let kept = codes_kept(raw);
    let v = autofill::text_docs(kept);
    assert(proper_item(d).items_at("barcodes"@) == Some(v));
    lemma_kept_holds(raw, code);
    lemma_sent_is(raw, code);
    if code_is_sent(raw, code) {
        let j = choose|j: int|
            0 <= j < kept.len() && text::lowered(#[trigger] kept[j]) == text::lowered(code);
        assert(v[j] == Doc::Str(kept[j]));
        assert(holds_code(v, code));
    }
    if v.contains(Doc::Str(code)) {
        let j = choose|j: int| 0 <= j < v.len() && v[j] == Doc::Str(code);
        assert(kept[j] == code);
    }
}

/// No two codes of an item differ only in the case of their letters.
pub proof fn law_item_codes_differ(d: Doc)
    requires
        d.is_object(),
    ensures
        proper_item(d).items_at("barcodes"@) matches Some(v) && forall|i: int, j: int|
            0 <= i < j < v.len() ==> (#[trigger] v[i]) is Str && (#[trigger] v[j]) is Str
                && text::lowered(v[i]->Str_0) != text::lowered(v[j]->Str_0),
{
    lemma_row_names();
    let raw = d.get("barcodes"@);
    let key = |x: Seq<char>| text::lowered(x);
    let kept = codes_kept(raw);
    let v = autofill::text_docs(kept);
    assert(proper_item(d).items_at("barcodes"@) == Some(v));
    lists::lemma_first_by(codes_sent(raw), key);
    assert forall|i: int, j: int| 0 <= i < j < v.len() implies (#[trigger] v[i]) is Str && (
    #[trigger] v[j]) is Str && text::lowered(v[i]->Str_0) != text::lowered(v[j]->Str_0) by {
        assert(key(kept[i]) != key(kept[j]));
    }
}

/// A stored item has its id and the times; the rest is its proper form.
pub proof fn law_item_stored(payload: Doc, id: Seq<char>, created: u64, now: u64, k: Seq<char>)
    requires
        payload.is_object(),
    ensures
        item_record(payload, id, created, now).text_at("id"@) == Some(id),
        item_record(payload, id, created, now).whole_at("created_ms"@) == Some(created),
        item_record(payload, id, created, now).whole_at("updated_ms"@) == Some(now),
        k != "id"@ && k != "created_ms"@ && k != "updated_ms"@ ==> item_record(
            payload,
            id,
            created,
            now,
        ).get(k) == proper_item(payload).get(k),
{
    lemma_row_names();
}

/// The file of a picture begins with the moment and a hyphen; behind it stands
/// the name that was sent, or one for all.
pub proof fn law_image_name(payload: Doc, now: nat, s: Seq<char>)
    ensures
        payload.text_at("filename"@) == Some(s) ==> image_name(payload, now) == digits::decimal(now)
            + seq!['-'] + names::safe_name(s),
        payload.text_at("filename"@) is None ==> image_name(payload, now) == digits::decimal(now)
            + seq!['-'] + names::safe_name("image.png"@),
        image_stored(s).get("ok"@) == Some(Doc::Bool(true)),
        image_stored(s).text_at("filename"@) == Some(s),
{
    lemma_row_names();
    reveal_strlit("-");
    assert("-"@ =~= seq!['-']);
}

/// One more code in the list that is sent is one more of the item, without the
/// space around it, unless it is blank or there already in other letters.
pub proof fn law_item_codes_grow(d: Doc, v: Seq<Doc>, code: Seq<char>)
    requires
        d.is_object(),
    ensures
        ({
            let c = text::trimmed(code);
            let before = proper_item(d.with("barcodes"@, Doc::Array(v))).items_at("barcodes"@);
            let after = proper_item(
                d.with("barcodes"@, Doc::Array(v.push(Doc::Str(code)))),
            ).items_at("barcodes"@);
            &&& before is Some
            &&& after == if c.len() > 0 && !holds_code(before->0, c) {
                Some(before->0.push(Doc::Str(c)))
            } else {
                before
            }
        }),
{
    lemma_row_names();
    let c = text::trimmed(code);
    let f = |x: Doc| code_item(x);
    let key = |x: Seq<char>| text::lowered(x);
    lists::law_picked_grows(v, Doc::Str(code), f);
    let sent = lists::picked(v, f);
    let had = lists::first_by(sent, key);
    let d0 = d.with("barcodes"@, Doc::Array(v));
    let d1 = d.with("barcodes"@, Doc::Array(v.push(Doc::Str(code))));
    assert(codes_kept(d0.get("barcodes"@)) == had);
    assert(proper_item(d0).items_at("barcodes"@) == Some(autofill::text_docs(had)));
    assert(proper_item(d1).items_at("barcodes"@) == Some(
        autofill::text_docs(codes_kept(d1.get("barcodes"@))),
    ));
    let shown = autofill::text_docs(had);
    if c.len() > 0 {
        assert(sent.push(c).drop_last() =~= sent);
        if exists|j: int| 0 <= j < had.len() && key(#[trigger] had[j]) == key(c) {
            let j = choose|j: int| 0 <= j < had.len() && key(#[trigger] had[j]) == key(c);
            assert(shown[j] == Doc::Str(had[j]));
            assert(holds_code(shown, c));
            assert(codes_kept(d1.get("barcodes"@)) == had);
        } else {
            assert(codes_kept(d1.get("barcodes"@)) == had.push(c));
            assert(autofill::text_docs(had.push(c)) =~= shown.push(Doc::Str(c)));
            if holds_code(shown, c) {
                let j = choose|j: int|
                    0 <= j < shown.len() && (#[trigger] shown[j] matches Doc::Str(s)
                        && text::lowered(s) == text::lowered(c));
                assert(key(had[j]) == key(c));
            }
        }
    }
}

/// What is no text among the codes is no code, and an item that is sent without
/// codes, or shown without them, has none.
pub proof fn law_item_codes_are_texts(d: Doc, v: Seq<Doc>, x: Doc, i: ItemDoc)
    requires
        d.is_object(),
        !(x is Str),
    ensures
        proper_item(d.with("barcodes"@, Doc::Array(v.push(x)))).items_at("barcodes"@)
            == proper_item(d.with("barcodes"@, Doc::Array(v))).items_at("barcodes"@),
        !d.has("barcodes"@) ==> proper_item(d).items_at("barcodes"@) == Some(Seq::<Doc>::empty()),
        i.record.items_at("barcodes"@) is None ==> item_row(i).items_at("barcodes"@) == Some(
            Seq::<Doc>::empty(),
        ),
        i.record.items_at("barcodes"@) == Some(v.push(x)) ==> item_row(i).items_at("barcodes"@)
            == item_row(
            (ItemDoc {
                id: i.id,
                record: i.record.with("barcodes"@, Doc::Array(v)),
                images: i.images,
            }),
        ).items_at("barcodes"@),
{
    lemma_row_names();
    lists::law_picked_grows(v, x, |y: Doc| code_item(y));
    let none = Seq::<Seq<char>>::empty();
    assert(autofill::text_docs(none) =~= Seq::<Doc>::empty());
    if !d.has("barcodes"@) {
        assert(codes_kept(d.get("barcodes"@)) =~= none);
    }
}

/// The record of an item that is made.
pub open spec fn item_made(payload: Doc, id: Seq<char>, now: u64) -> Doc {
    item_record(payload, id, now, now)
}

/// What comes of changing an item.
pub open spec fn item_changed(payload: Doc, existing: Option<Doc>, id: Seq<char>, now: u64) -> Result<
    Doc,
    (Status, Seq<char>),
> {
    match existing {
        Some(e) => Ok(item_record(payload, id, e.whole_or("created_ms"@, now), now)),
        None => Err((Status::NotFound, "store item not found"@)),
    }
}

/// The record of an item that got a picture.
pub open spec fn item_touched(record: Doc, now: u64) -> Option<Doc> {
    if record.is_object() {
        Some(record.with("updated_ms"@, Doc::num(now as int)))
    } else {
        None
    }
}

/// An item that is made is new; one that is changed keeps the time of its
/// making; one that is not there cannot be changed.
pub proof fn law_item_times(payload: Doc, existing: Doc, id: Seq<char>, now: u64, k: Seq<char>)
    requires
        payload.is_object(),
    ensures
        item_made(payload, id, now).whole_at("created_ms"@) == Some(now),
        item_made(payload, id, now).whole_at("updated_ms"@) == Some(now),
        item_made(payload, id, now).text_at("id"@) == Some(id),
        k != "id"@ && k != "created_ms"@ && k != "updated_ms"@ ==> item_made(payload, id, now).get(k)
            == proper_item(payload).get(k),
        item_changed(payload, Some(existing), id, now) matches Ok(d) && d.whole_at("created_ms"@)
            == Some(existing.whole_or("created_ms"@, now)) && d.whole_at("updated_ms"@) == Some(now)
            && d.text_at("id"@) == Some(id) && (k != "id"@ && k != "created_ms"@ && k
            != "updated_ms"@ ==> d.get(k) == proper_item(payload).get(k)),
        item_changed(payload, None, id, now) == Err::<Doc, (Status, Seq<char>)>(
            (Status::NotFound, "store item not found"@),
        ),
{
    lemma_row_names();
}

/// An item that got a picture was changed now; what else it says stays.
pub proof fn law_item_touched(record: Doc, now: u64, k: Seq<char>)
    ensures
        record.is_object() ==> (item_touched(record, now) matches Some(d) && d.whole_at(
            "updated_ms"@,
        ) == Some(now) && (k != "updated_ms"@ ==> d.get(k) == record.get(k))),
        !record.is_object() ==> item_touched(record, now) is None,
{
}

} // verus!
