//! The oil archive of a car: recommendations of the catalogue, one record for
//! each variant of the car.
use crate::digits;
use crate::failure;
use crate::files;
use crate::files::{FileDoc, StoredFile};
use crate::json;
use crate::json::{Doc, Json};
use crate::names;
use crate::order;
use crate::proxy;
use crate::text;
use vstd::prelude::*;

verus! {

/// A record of the archive as it stands in the list.
pub open spec fn oil_row(f: FileDoc) -> Doc {
    Doc::object().with("name"@, Doc::Str(f.name)).with(
        "title"@,
        Doc::Str(f.doc.text_or("title"@, text::without_suffixes(f.name, ".json"@))),
    ).with("saved_ms"@, Doc::num(f.saved_ms as int))
}

/// The list of the archive, by title.
pub open spec fn oils_answer(files: Seq<FileDoc>) -> Doc {
    failure::listing(
        order::ranked(files.map_values(|f: FileDoc| oil_row(f)), order::by_text("title"@)),
    )
}

/// A record of the archive as it stands in the list.
pub fn summarize_oil(f: &StoredFile) -> (r: Json)
    ensures
        r@ == oil_row(f@),
{
    proof {
        reveal_strlit(".json");
    }
    let plain = text::strip_suffixes(f.name.as_str(), ".json");
    let title = f.doc.text_or("title", plain.as_str());
    Json::object().with_text("name", f.name.as_str()).with_text("title", title.as_str()).with(
        "saved_ms",
        Json::of_u64(f.saved_ms),
    )
}

/// The list of the archive.
pub fn list_car_oils(oils: &Vec<StoredFile>) -> (r: Json)
    ensures
        r@ == oils_answer(files::file_docs(oils@)),
{
    let ghost all = files::file_docs(oils@);
    let ghost row = |f: FileDoc| oil_row(f);
    let mut items: Vec<Json> = Vec::new();
    let mut i: usize = 0;
    while i < oils.len()
        invariant
            i <= oils@.len(),
            all == files::file_docs(oils@),
            row == (|f: FileDoc| oil_row(f)),
            json::docs(items@) == all.take(i as int).map_values(row),
        decreases oils@.len() - i,
    {
        let ghost before = items@;
        let item = summarize_oil(&oils[i]);
        items.push(item);
        assert(json::docs(items@) =~= json::docs(before).push(item@));
        assert(json::docs(items@) =~= all.take(i + 1).map_values(row));
        i = i + 1;
    }
    assert(all.take(i as int) =~= all);
    failure::list_answer(order::sort_by_text(items, "title"))
}

/// The file in which a recommendation is kept that is sent at some moment.
pub open spec fn oil_file(payload: Doc, now: nat) -> Seq<char> {
    names::record_name(payload.text_or("file_name"@, names::stamped("oil-"@, now)))
}

pub fn save_car_oil(payload: &Json, now: u128) -> (r: String)
    ensures
        r@ == oil_file(payload@, now as nat),
{
    let suggested = names::stamped_id("oil-", now);
    names::record_file(payload.text_or("file_name", suggested.as_str()).as_str())
}

/// The answer to a recommendation that was stored.
pub open spec fn oil_stored(file: Seq<char>) -> Doc {
    failure::done().with("file_name"@, Doc::Str(file))
}

pub fn oil_answer(file: &str) -> (r: Json)
    ensures
        r@ == oil_stored(file@),
{
    failure::ok_answer().with_text("file_name", file)
}

/// Whether a document is a list that holds nothing but objects.
pub open spec fn object_list(d: Doc) -> bool {
    d matches Doc::Array(v) && forall|i: int| 0 <= i < v.len() ==> (#[trigger] v[i]).is_object()
}

/// Whether `k` is the first name, in the order of texts, of a member that is
/// a list of objects.
pub open spec fn first_object_list(d: Doc, k: Seq<char>) -> bool {
    &&& d.get(k) matches Some(v) && object_list(v)
    &&& forall|other: Seq<char>|
        (d.get(other) matches Some(v) && object_list(v)) ==> #[trigger] text::in_order(k, other)
}

/// The variants in an answer of the catalogue: the answer itself where it is
/// a list; else the first of some members that is one; else the first member
/// that is a list of objects; else none.
pub open spec fn variants_of(d: Doc) -> Seq<Doc> {
    if d is Array {
        d->Array_0
    } else if d.items_at("items"@) is Some {
        d.items_at("items"@)->0
    } else if d.items_at("variants"@) is Some {
        d.items_at("variants"@)->0
    } else if d.items_at("data"@) is Some {
        d.items_at("data"@)->0
    } else if d.items_at("results"@) is Some {
        d.items_at("results"@)->0
    } else if d.items_at("cars"@) is Some {
        d.items_at("cars"@)->0
    } else if d.items_at("types"@) is Some {
        d.items_at("types"@)->0
    } else if exists|k: Seq<char>| first_object_list(d, k) {
        d.items_at(choose|k: Seq<char>| first_object_list(d, k))->0
    } else {
        Seq::<Doc>::empty()
    }
}

fn only_objects(d: &Json) -> (r: bool)
    ensures
        r == object_list(d@),
{
    let v = match d.items() {
        Some(v) => v,
        None => return false,
    };
    let mut i: usize = 0;
    while i < v.len()
        invariant
            i <= v@.len(),
            d@ == Doc::Array(json::docs(v@)),
            forall|k: int| 0 <= k < i ==> (#[trigger] json::docs(v@)[k]).is_object(),
        decreases v@.len() - i,
    {
        assert(json::docs(v@)[i as int] == v@[i as int]@);
        if !v[i].is_object() {
            assert(!(d@->Array_0)[i as int].is_object());
            return false;
        }
        i = i + 1;
    }
    true
}

/// The name of the first member that is a list of objects.
fn find_object_list(d: &Json) -> (r: Option<String>)
    ensures
        match r {
            Some(k) => first_object_list(d@, k@),
            None => forall|k: Seq<char>|
                !((#[trigger] d@.get(k)) matches Some(v) && object_list(v)),
        },
{
    let keys = d.keys();
    let ghost all = text::texts(keys@);
    let mut best: Option<String> = None;
    let mut i: usize = 0;
    while i < keys.len()
        invariant
            i <= keys@.len(),
            all == text::texts(keys@),
            match best {
                Some(b) => (d@.get(b@) matches Some(v) && object_list(v)) && forall|j: int|
                    #![trigger all[j]]
                    0 <= j < i && (d@.get(all[j]) matches Some(v) && object_list(v))
                        ==> text::in_order(b@, all[j]),
                None => forall|j: int|
                    #![trigger all[j]]
                    0 <= j < i ==> !(d@.get(all[j]) matches Some(v) && object_list(v)),
            },
        decreases keys@.len() - i,
    {
        let key = keys[i].as_str();
        assert(all[i as int] == key@);
        let fits = match d.get(key) {
            Some(v) => only_objects(v),
            None => false,
        };
        if fits {
            let better = match &best {
                Some(b) => !text::ordered(b.as_str(), key),
                None => true,
            };
            proof {
                text::lemma_in_order_same(key@);
                if best is Some {
                    let b = best->0;
                    text::lemma_in_order_total(b@, key@);
                    assert forall|j: int|
                        #![trigger all[j]]
                        0 <= j < i && (d@.get(all[j]) matches Some(v) && object_list(v))
                            && text::in_order(key@, b@) implies text::in_order(key@, all[j]) by {
                        text::lemma_in_order_through(key@, b@, all[j]);
                    }
                }
            }
            if better {
                best = Some(key.to_owned());
            }
        }
        i = i + 1;
    }
    match &best {
        Some(b) => {
            assert forall|other: Seq<char>|
                (d@.get(other) matches Some(v) && object_list(v)) implies #[trigger] text::in_order(
                b@,
                other,
            ) by {
                assert(d@.has(other));
                let j = choose|j: int| 0 <= j < all.len() && all[j] == other;
                assert(all[j] == other);
            }
        },
        None => {
            assert forall|k: Seq<char>|
                !((#[trigger] d@.get(k)) matches Some(v) && object_list(v)) by {
                if d@.has(k) {
                    let j = choose|j: int| 0 <= j < all.len() && all[j] == k;
                    assert(all[j] == k);
                }
            }
        },
    }
    best
}

/// The variants in an answer of the catalogue.
pub fn extract_variants(d: &Json) -> (r: Vec<Json>)
    ensures
        json::docs(r@) == variants_of(d@),
{
    if let Some(v) = d.items() {
        return json::clone_all(v);
    }
    if let Some(v) = d.items_at("items") {
        return json::clone_all(v);
    }
    if let Some(v) = d.items_at("variants") {
        return json::clone_all(v);
    }
    if let Some(v) = d.items_at("data") {
        return json::clone_all(v);
    }
    if let Some(v) = d.items_at("results") {
        return json::clone_all(v);
    }
    if let Some(v) = d.items_at("cars") {
        return json::clone_all(v);
    }
    if let Some(v) = d.items_at("types") {
        return json::clone_all(v);
    }
    if let Some(k) = find_object_list(d) {
        let ghost chosen = choose|k: Seq<char>| first_object_list(d@, k);
        assert(first_object_list(d@, k@));
        assert(first_object_list(d@, chosen));
        assert(text::in_order(k@, chosen) && text::in_order(chosen, k@));
        proof {
            text::lemma_in_order_both(k@, chosen);
        }
        if let Some(v) = d.items_at(k.as_str()) {
            return json::clone_all(v);
        }
    }
    let none: Vec<Json> = Vec::new();
    assert(json::docs(none@) =~= Seq::<Doc>::empty());
    none
}

/// The first of some members that is there.
pub open spec fn first_member(d: Doc, ks: Seq<Seq<char>>) -> Option<Doc>
    decreases ks.len(),
{
    if ks.len() == 0 {
        None
    } else {
        match first_member(d, ks.drop_last()) {
            Some(v) => Some(v),
            None => d.get(ks.last()),
        }
    }
}

/// The token by which the catalogue knows a variant: a text or a number.
pub open spec fn token_of(variant: Doc) -> Option<Seq<char>> {
    match first_member(variant, seq!["slug_or_id"@, "slug"@, "id"@, "code"@]) {
        Some(v) => match v.text() {
            Some(s) => Some(s),
            None => match v.integer() {
                Some(n) => Some(digits::signed_decimal(n as int)),
                None => None,
            },
        },
        None => None,
    }
}

/// The title of a variant: its name, or else its token.
pub open spec fn label_of(variant: Doc) -> Seq<char> {
    let named = match first_member(variant, seq!["name"@, "title"@, "label"@]) {
        Some(v) => v.text(),
        None => None,
    };
    match (named, token_of(variant)) {
        (Some(s), _) => s,
        (None, Some(t)) => t,
        (None, None) => "variant"@,
    }
}

fn either<'a>(a: Option<&'a Json>, b: Option<&'a Json>) -> (r: Option<&'a Json>)
    ensures
        r == if a is Some {
            a
        } else {
            b
        },
{
    match a {
        Some(v) => Some(v),
        None => b,
    }
}

pub fn variant_token(variant: &Json) -> (r: Option<String>)
    ensures
        text::opt_text(r) == token_of(variant@),
{
    let found = either(
        either(either(variant.get("slug_or_id"), variant.get("slug")), variant.get("id")),
        variant.get("code"),
    );
    proof {
        reveal_with_fuel(first_member, 5);
        let ks = seq!["slug_or_id"@, "slug"@, "id"@, "code"@];
        assert(ks.drop_last() =~= seq!["slug_or_id"@, "slug"@, "id"@]);
        assert(ks.drop_last().drop_last() =~= seq!["slug_or_id"@, "slug"@]);
        assert(ks.drop_last().drop_last().drop_last() =~= seq!["slug_or_id"@]);
        assert(first_member(variant@, ks) == json::opt_doc(found));
    }
    match found {
        Some(v) => match v.text() {
            Some(s) => Some(s.to_owned()),
            None => match v.integer() {
                Some(n) => Some(digits::signed_text(n)),
                None => None,
            },
        },
        None => None,
    }
}

pub fn variant_label(variant: &Json) -> (r: String)
    ensures
        r@ == label_of(variant@),
{
    let found = either(
        either(variant.get("name"), variant.get("title")),
        variant.get("label"),
    );
    proof {
        reveal_with_fuel(first_member, 4);
        let ks = seq!["name"@, "title"@, "label"@];
        assert(ks.drop_last() =~= seq!["name"@, "title"@]);
        assert(ks.drop_last().drop_last() =~= seq!["name"@]);
        assert(first_member(variant@, ks) == json::opt_doc(found));
    }
    if let Some(v) = found {
        if let Some(s) = v.text() {
            return s.to_owned();
        }
    }
    match variant_token(variant) {
        Some(t) => t,
        None => "variant".to_owned(),
    }
}

/// The question for a variant: its token, and the link that is asked. There
/// is none for a variant without a token.
pub fn ask_variant(variant: &Json, plate: &str, now: u128) -> (r: Option<(String, String)>)
    ensures
        match r {
            Some(q) => token_of(variant@) == Some(q.0@) && q.1@ == proxy::oil_link(
                q.0@,
                plate@,
                now as nat,
            ),
            None => token_of(variant@) is None,
        },
{
    match variant_token(variant) {
        Some(token) => {
            let link = proxy::step_b_link(token.as_str(), plate, now);
            Some((token, link))
        },
        None => None,
    }
}

/// The record of a recommendation that was fetched.
pub open spec fn snapshot(
    variant: Doc,
    token: Seq<char>,
    plate: Seq<char>,
    data: Doc,
    now: u64,
) -> Doc {
    Doc::object().with("title"@, Doc::Str(label_of(variant))).with("token"@, Doc::Str(token)).with(
        "plate"@,
        Doc::Str(plate),
    ).with("fetched_ms"@, Doc::num(now as int)).with("variant"@, variant).with("data"@, data)
}

/// The name for a variant after its label.
pub open spec fn plain_name(variant: Doc) -> Seq<char> {
    names::safe_name(label_of(variant))
}

/// The name for a variant after its label and its token.
pub open spec fn marked_name(variant: Doc) -> Seq<char> {
    plain_name(variant) + "--"@ + names::code_of(
        match token_of(variant) {
            Some(t) => t,
            None => Seq::<char>::empty(),
        },
    )
}

/// Whether another recommendation may be kept under the plain name of a
/// variant.
pub open spec fn contests(variant: Doc, other: Doc) -> bool {
    &&& token_of(other) is Some
    &&& token_of(other) != token_of(variant)
    &&& plain_name(other) == plain_name(variant) || marked_name(other) == plain_name(variant)
}

/// Whether the plain name of a variant is that under which the whole answer of
/// the catalogue is kept, or may be that of another variant as well.
pub open spec fn is_contested(variants: Seq<Doc>, i: int) -> bool {
    ||| plain_name(variants[i]) == "_step-a"@
    ||| exists|j: int| 0 <= j < variants.len() && contests(variants[i], #[trigger] variants[j])
}

/// The file in which the recommendation for a variant is kept: after its
/// label, and after its token too where that name is claimed.
pub open spec fn snapshot_name(variants: Seq<Doc>, i: int) -> Seq<char> {
    if is_contested(variants, i) {
        marked_name(variants[i]) + ".json"@
    } else {
        plain_name(variants[i]) + ".json"@
    }
}

pub fn snapshot_record(variant: &Json, token: &str, plate: &str, data: Json, now: u64) -> (r: Json)
    ensures
        r@ == snapshot(variant@, token@, plate@, data@, now),
{
    Json::object().with_text("title", variant_label(variant).as_str()).with_text(
        "token",
        token,
    ).with_text("plate", plate).with("fetched_ms", Json::of_u64(now)).with(
        "variant",
        variant.clone(),
    ).with("data", data)
}

fn name_plainly(variant: &Json) -> (r: String)
    ensures
        r@ == plain_name(variant@),
{
    names::sanitize_filename(variant_label(variant).as_str())
}

fn name_marked(variant: &Json) -> (r: String)
    ensures
        r@ == marked_name(variant@),
{
    let token = match variant_token(variant) {
        Some(t) => t,
        None => String::new(),
    };
    assert(token_of(variant@) is None ==> token@ =~= Seq::<char>::empty());
    let code = names::encode_name(token.as_str());
    text::cat3(name_plainly(variant).as_str(), "--", code.as_str())
}

fn claims_name(variant: &Json, other: &Json) -> (r: bool)
    ensures
        r == contests(variant@, other@),
{
    let theirs = match variant_token(other) {
        Some(t) => t,
        None => return false,
    };
    if let Some(own) = variant_token(variant) {
        if text::same(own.as_str(), theirs.as_str()) {
            return false;
        }
    }
    let name = name_plainly(variant);
    text::same(name_plainly(other).as_str(), name.as_str()) || text::same(
        name_marked(other).as_str(),
        name.as_str(),
    )
}

/// The file in which the recommendation for a variant of the list is kept.
pub fn snapshot_file(variants: &Vec<Json>, i: usize) -> (r: String)
    requires
        i < variants@.len(),
    ensures
        r@ == snapshot_name(json::docs(variants@), i as int),
{
    let ghost all = json::docs(variants@);
    assert(all[i as int] == variants@[i as int]@);
    if text::same(name_plainly(&variants[i]).as_str(), "_step-a") {
        return text::cat(name_marked(&variants[i]).as_str(), ".json");
    }
    let mut j: usize = 0;
    while j < variants.len()
        invariant
            i < variants@.len(),
            j <= variants@.len(),
            all == json::docs(variants@),
            all[i as int] == variants@[i as int]@,
            plain_name(all[i as int]) != "_step-a"@,
            forall|k: int| 0 <= k < j ==> !contests(all[i as int], #[trigger] all[k]),
        decreases variants@.len() - j,
    {
        assert(all[j as int] == variants@[j as int]@);
        if claims_name(&variants[i], &variants[j]) {
            return text::cat(name_marked(&variants[i]).as_str(), ".json");
        }
        j = j + 1;
    }
    text::cat(name_plainly(&variants[i]).as_str(), ".json")
}

/// What became of the question for a variant.
pub enum Fetch {
    /// The recommendation came and was written.
    Written,
    /// The recommendation came and could not be written.
    Unwritten,
    /// The catalogue did not answer, and why.
    Failed(String),
}

/// What became of the question for a variant.
pub enum FetchDoc {
    Written,
    Unwritten,
    Failed(Seq<char>),
}

impl View for Fetch {
    type V = FetchDoc;

    open spec fn view(&self) -> FetchDoc {
        match self {
            Fetch::Written => FetchDoc::Written,
            Fetch::Unwritten => FetchDoc::Unwritten,
            Fetch::Failed(m) => FetchDoc::Failed(m@),
        }
    }
}

pub open spec fn fetch_docs(v: Seq<Fetch>) -> Seq<FetchDoc> {
    v.map_values(|f: Fetch| f@)
}

/// What the report says of a recommendation that was saved.
pub open spec fn saved_row(variants: Seq<Doc>, i: int, fetch: FetchDoc) -> Option<Doc> {
    if token_of(variants[i]) is Some && fetch is Written {
        Some(
            Doc::object().with("file_name"@, Doc::Str(snapshot_name(variants, i))).with(
                "title"@,
                Doc::Str(label_of(variants[i])),
            ),
        )
    } else {
        None
    }
}

/// What the report says of a variant that could not be fetched.
pub open spec fn error_row(variant: Doc, fetch: FetchDoc) -> Option<Doc> {
    match (token_of(variant), fetch) {
        (None, _) => Some(
            Doc::object().with("variant"@, variant).with("error"@, Doc::Str("no token"@)),
        ),
        (Some(t), FetchDoc::Failed(m)) => Some(
            Doc::object().with("token"@, Doc::Str(t)).with(
                "title"@,
                Doc::Str(label_of(variant)),
            ).with("error"@, Doc::Str(m)),
        ),
        _ => None,
    }
}

pub open spec fn appended(s: Seq<Doc>, o: Option<Doc>) -> Seq<Doc> {
    match o {
        Some(d) => s.push(d),
        None => s,
    }
}

/// What the report says of the first `n` variants: what was saved, and what
/// was not.
pub open spec fn report_rows(variants: Seq<Doc>, fetches: Seq<FetchDoc>, n: nat) -> (
    Seq<Doc>,
    Seq<Doc>,
)
    decreases n,
{
    if n == 0 {
        (Seq::<Doc>::empty(), Seq::<Doc>::empty())
    } else {
        let i = n - 1;
        let before = report_rows(variants, fetches, i as nat);
        (
            appended(before.0, saved_row(variants, i, fetches[i])),
            appended(before.1, error_row(variants[i], fetches[i])),
        )
    }
}

/// The report on the variants of a car, given what became of each.
pub open spec fn fetch_report(variants: Seq<Doc>, fetches: Seq<FetchDoc>) -> Doc {
    let rows = report_rows(variants, fetches, variants.len());
    failure::done().with("variants_found"@, Doc::num(variants.len() as int)).with(
        "saved"@,
        Doc::Array(rows.0),
    ).with("errors"@, Doc::Array(rows.1))
}

fn saved_entry(variants: &Vec<Json>, i: usize, fetch: &Fetch) -> (r: Option<Json>)
    requires
        i < variants@.len(),
    ensures
        json::opt_json(r) == saved_row(json::docs(variants@), i as int, fetch@),
{
    assert(json::docs(variants@)[i as int] == variants@[i as int]@);
    match (variant_token(&variants[i]), fetch) {
        (Some(_), Fetch::Written) => Some(
            Json::object().with_text("file_name", snapshot_file(variants, i).as_str()).with_text(
                "title",
                variant_label(&variants[i]).as_str(),
            ),
        ),
        _ => None,
    }
}

fn error_entry(variant: &Json, fetch: &Fetch) -> (r: Option<Json>)
    ensures
        json::opt_json(r) == error_row(variant@, fetch@),
{
    match (variant_token(variant), fetch) {
        (None, _) => Some(
            Json::object().with("variant", variant.clone()).with_text("error", "no token"),
        ),
        (Some(t), Fetch::Failed(m)) => Some(
            Json::object().with_text("token", t.as_str()).with_text(
                "title",
                variant_label(variant).as_str(),
            ).with_text("error", m.as_str()),
        ),
        _ => None,
    }
}

/// The report on the variants of a car, given what became of the question for
/// each; what is given for a variant without a token is not looked at.
pub fn fetch_all_car_oils(variants: &Vec<Json>, fetches: &Vec<Fetch>) -> (r: Json)
    requires
        variants@.len() == fetches@.len(),
    ensures
        r@ == fetch_report(json::docs(variants@), fetch_docs(fetches@)),
{
    let ghost vs = json::docs(variants@);
    let ghost fs = fetch_docs(fetches@);
    let mut saved: Vec<Json> = Vec::new();
    let mut errors: Vec<Json> = Vec::new();
    let mut i: usize = 0;
    assert(json::docs(saved@) =~= Seq::<Doc>::empty());
    assert(json::docs(errors@) =~= Seq::<Doc>::empty());
    while i < variants.len()
        invariant
            i <= variants@.len(),
            variants@.len() == fetches@.len(),
            vs == json::docs(variants@),
            fs == fetch_docs(fetches@),
            report_rows(vs, fs, i as nat) == (json::docs(saved@), json::docs(errors@)),
        decreases variants@.len() - i,
    {
        let ghost before = (saved@, errors@);
        assert(vs[i as int] == variants@[i as int]@);
        assert(fs[i as int] == fetches@[i as int]@);
        if let Some(row) = saved_entry(variants, i, &fetches[i]) {
            saved.push(row);
            assert(json::docs(saved@) =~= json::docs(before.0).push(row@));
        }
        if let Some(row) = error_entry(&variants[i], &fetches[i]) {
            errors.push(row);
            assert(json::docs(errors@) =~= json::docs(before.1).push(row@));
        }
        i = i + 1;
    }
    failure::ok_answer().with("variants_found", Json::of_u64(variants.len() as u64)).with(
        "saved",
        Json::list(saved),
    ).with("errors", Json::list(errors))
}

/// Every variant is reported at most once, and only what came but could not
/// be written is left out.
pub proof fn law_report_accounts(variants: Seq<Doc>, fetches: Seq<FetchDoc>, n: nat)
    requires
        n <= variants.len(),
        variants.len() == fetches.len(),
    ensures
        report_rows(variants, fetches, n).0.len() + report_rows(variants, fetches, n).1.len() <= n,
        (forall|i: int| 0 <= i < n ==> !(#[trigger] fetches[i] is Unwritten)) ==> report_rows(
            variants,
            fetches,
            n,
        ).0.len() + report_rows(variants, fetches, n).1.len() == n,
    decreases n,
{
    if n > 0 {
        law_report_accounts(variants, fetches, (n - 1) as nat);
    }
}

/// Both names for a variant are safe.
proof fn lemma_names_safe(variant: Doc)
    ensures
        forall|i: int|
            0 <= i < plain_name(variant).len() ==> names::name_char(#[trigger] plain_name(variant)[i]),
        forall|i: int|
            0 <= i < marked_name(variant).len() ==> names::name_char(
                #[trigger] marked_name(variant)[i],
            ),
{
    reveal_strlit("--");
    names::law_safe_name(label_of(variant));
    let token = match token_of(variant) {
        Some(t) => t,
        None => Seq::<char>::empty(),
    };
    names::lemma_code_plain(token);
    let base = plain_name(variant);
    let code = names::code_of(token);
    let r = marked_name(variant);
    assert forall|i: int| 0 <= i < r.len() implies names::name_char(#[trigger] r[i]) by {
        if i < base.len() {
            assert(r[i] == base[i]);
        } else if i > base.len() + 1 {
            assert(r[i] == code[i - base.len() - 2]);
        }
    }
}

/// Whatever the catalogue says, a recommendation is kept in a file with a
/// safe name.
pub proof fn law_snapshot_name(variants: Seq<Doc>, i: int)
    requires
        0 <= i < variants.len(),
    ensures
        names::safe_name(snapshot_name(variants, i)) == snapshot_name(variants, i),
{
    reveal_strlit(".json");
    lemma_names_safe(variants[i]);
    let base = if is_contested(variants, i) {
        marked_name(variants[i])
    } else {
        plain_name(variants[i])
    };
    let r = snapshot_name(variants, i);
    assert forall|k: int| 0 <= k < r.len() implies names::name_char(#[trigger] r[k]) by {
        if k < base.len() {
            assert(r[k] == base[k]);
        } else {
            assert(r[k] == ".json"@[k - base.len()]);
        }
    }
    names::lemma_safe_as_is(r);
}

proof fn lemma_marks_differ(a: Doc, b: Doc)
    requires
        token_of(a) is Some,
        token_of(b) is Some,
        token_of(a) != token_of(b),
    ensures
        marked_name(a) != marked_name(b),
{
    reveal_strlit("--");
    let x = names::code_of(token_of(a)->0);
    let y = names::code_of(token_of(b)->0);
    names::law_codes_differ(token_of(a)->0, token_of(b)->0);
    names::lemma_code_plain(token_of(a)->0);
    names::lemma_code_plain(token_of(b)->0);
    let m = marked_name(a);
    if m == marked_name(b) {
        let n = m.len() as int;
        if x.len() < y.len() {
            assert(m[n - x.len() - 1] == '-');
            assert(m[n - x.len() - 1] == y[y.len() - x.len() - 1]);
        } else if y.len() < x.len() {
            assert(m[n - y.len() - 1] == '-');
            assert(m[n - y.len() - 1] == x[x.len() - y.len() - 1]);
        } else {
            assert(x =~= m.skip(n - x.len()));
            assert(y =~= m.skip(n - x.len()));
        }
    }
}

/// Each recommendation is kept in a file of its own: no two variants of a list
/// with different tokens share one.
pub proof fn law_snapshots_apart(variants: Seq<Doc>, i: int, j: int)
    requires
        0 <= i < variants.len(),
        0 <= j < variants.len(),
        token_of(variants[i]) is Some,
        token_of(variants[j]) is Some,
        token_of(variants[i]) != token_of(variants[j]),
    ensures
        snapshot_name(variants, i) != snapshot_name(variants, j),
{
    let a = variants[i];
    let b = variants[j];
    lemma_marks_differ(a, b);
    let x = if is_contested(variants, i) {
        marked_name(a)
    } else {
        plain_name(a)
    };
    let y = if is_contested(variants, j) {
        marked_name(b)
    } else {
        plain_name(b)
    };
    assert(contests(a, b) ==> is_contested(variants, i));
    assert(contests(b, a) ==> is_contested(variants, j));
    assert(x != y);
    if snapshot_name(variants, i) == snapshot_name(variants, j) {
        assert(snapshot_name(variants, i).len() == x.len() + ".json"@.len());
        assert(snapshot_name(variants, j).len() == y.len() + ".json"@.len());
        assert(x =~= snapshot_name(variants, i).take(x.len() as int));
        assert(y =~= snapshot_name(variants, j).take(x.len() as int));
    }
}

/// No recommendation takes the file in which the whole answer of the
/// catalogue is kept.
pub proof fn law_answer_stays(variants: Seq<Doc>, i: int)
    requires
        0 <= i < variants.len(),
    ensures
        snapshot_name(variants, i) != "_step-a.json"@,
{
    reveal_strlit("--");
    reveal_strlit(".json");
    reveal_strlit("_step-a");
    reveal_strlit("_step-a.json");
    let r = snapshot_name(variants, i);
    let n = plain_name(variants[i]).len() as int;
    if r == "_step-a.json"@ {
        if is_contested(variants, i) {
            let m = marked_name(variants[i]);
            assert(m.len() >= n + 2 && m[n] == '-' && m[n + 1] == '-');
            assert(r.len() == m.len() + 5);
            assert(r[n] == m[n] && r[n + 1] == m[n + 1]);
        } else {
            assert(r.len() == n + 5);
            assert(plain_name(variants[i]) =~= r.take(7));
            assert("_step-a"@ =~= r.take(7));
        }
    }
}

/// No two of these names are the same.
proof fn lemma_oil_all_names()
    ensures
        "name"@.len() == 4,
        "title"@.len() == 5,
        "saved_ms"@.len() == 8,
        "file_name"@.len() == 9,
        "ok"@.len() == 2,
        "items"@.len() == 5,
        "variants"@.len() == 8,
        "data"@.len() == 4,
        "results"@.len() == 7,
        "cars"@.len() == 4,
        "types"@.len() == 5,
        "slug_or_id"@.len() == 10,
        "slug"@.len() == 4,
        "id"@.len() == 2,
        "code"@.len() == 4,
        "label"@.len() == 5,
        "token"@.len() == 5,
        "plate"@.len() == 5,
        "fetched_ms"@.len() == 10,
        "variant"@.len() == 7,
        "error"@.len() == 5,
        "variants_found"@.len() == 14,
        "saved"@.len() == 5,
        "errors"@.len() == 6,
        "name"@ != "data"@,
        "name"@ != "cars"@,
        "name"@ != "slug"@,
        "name"@ != "code"@,
        "title"@ != "items"@,
        "title"@ != "types"@,
        "title"@ != "label"@,
        "title"@ != "token"@,
        "title"@ != "plate"@,
        "title"@ != "error"@,
        "title"@ != "saved"@,
        "saved_ms"@ != "variants"@,
        "ok"@ != "id"@,
        "items"@ != "types"@,
        "items"@ != "label"@,
        "items"@ != "token"@,
        "items"@ != "plate"@,
        "items"@ != "error"@,
        "items"@ != "saved"@,
        "data"@ != "cars"@,
        "data"@ != "slug"@,
        "data"@ != "code"@,
        "results"@ != "variant"@,
        "cars"@ != "slug"@,
        "cars"@ != "code"@,
        "types"@ != "label"@,
        "types"@ != "token"@,
        "types"@ != "plate"@,
        "types"@ != "error"@,
        "types"@ != "saved"@,
        "slug_or_id"@ != "fetched_ms"@,
        "slug"@ != "code"@,
        "label"@ != "token"@,
        "label"@ != "plate"@,
        "label"@ != "error"@,
        "label"@ != "saved"@,
        "token"@ != "plate"@,
        "token"@ != "error"@,
        "token"@ != "saved"@,
        "plate"@ != "error"@,
        "plate"@ != "saved"@,
        "error"@ != "saved"@,
{
    reveal_strlit("name");
    reveal_strlit("title");
    reveal_strlit("saved_ms");
    reveal_strlit("file_name");
    reveal_strlit("ok");
    reveal_strlit("items");
    reveal_strlit("variants");
    reveal_strlit("data");
    reveal_strlit("results");
    reveal_strlit("cars");
    reveal_strlit("types");
    reveal_strlit("slug_or_id");
    reveal_strlit("slug");
    reveal_strlit("id");
    reveal_strlit("code");
    reveal_strlit("label");
    reveal_strlit("token");
    reveal_strlit("plate");
    reveal_strlit("fetched_ms");
    reveal_strlit("variant");
    reveal_strlit("error");
    reveal_strlit("variants_found");
    reveal_strlit("saved");
    reveal_strlit("errors");
    assert("name"@[0] != "data"@[0]);
    assert("name"@[0] != "cars"@[0]);
    assert("name"@[0] != "slug"@[0]);
    assert("name"@[0] != "code"@[0]);
    assert("title"@[0] != "items"@[0]);
    assert("title"@[1] != "types"@[1]);
    assert("title"@[0] != "label"@[0]);
    assert("title"@[1] != "token"@[1]);
    assert("title"@[0] != "plate"@[0]);
    assert("title"@[0] != "error"@[0]);
    assert("title"@[0] != "saved"@[0]);
    assert("saved_ms"@[0] != "variants"@[0]);
    assert("ok"@[0] != "id"@[0]);
    assert("items"@[0] != "types"@[0]);
    assert("items"@[0] != "label"@[0]);
    assert("items"@[0] != "token"@[0]);
    assert("items"@[0] != "plate"@[0]);
    assert("items"@[0] != "error"@[0]);
    assert("items"@[0] != "saved"@[0]);
    assert("data"@[0] != "cars"@[0]);
    assert("data"@[0] != "slug"@[0]);
    assert("data"@[0] != "code"@[0]);
    assert("results"@[0] != "variant"@[0]);
    assert("cars"@[0] != "slug"@[0]);
    assert("cars"@[1] != "code"@[1]);
    assert("types"@[0] != "label"@[0]);
    assert("types"@[1] != "token"@[1]);
    assert("types"@[0] != "plate"@[0]);
    assert("types"@[0] != "error"@[0]);
    assert("types"@[0] != "saved"@[0]);
    assert("slug_or_id"@[0] != "fetched_ms"@[0]);
    assert("slug"@[0] != "code"@[0]);
    assert("label"@[0] != "token"@[0]);
    assert("label"@[0] != "plate"@[0]);
    assert("label"@[0] != "error"@[0]);
    assert("label"@[0] != "saved"@[0]);
    assert("token"@[0] != "plate"@[0]);
    assert("token"@[0] != "error"@[0]);
    assert("token"@[0] != "saved"@[0]);
    assert("plate"@[0] != "error"@[0]);
    assert("plate"@[0] != "saved"@[0]);
    assert("error"@[0] != "saved"@[0]);
}

/// The row of a recommendation: its file, when it was saved, and its title,
/// which is that of the file, without the ending, where it has none.
pub proof fn law_oil_row(f: FileDoc, s: Seq<char>)
    ensures
        oil_row(f).text_at("name"@) == Some(f.name),
        oil_row(f).whole_at("saved_ms"@) == Some(f.saved_ms),
        f.doc.text_at("title"@) == Some(s) ==> oil_row(f).text_at("title"@) == Some(s),
        f.doc.text_at("title"@) is None && f.name == s + ".json"@ && !text::ends_with_spec(
            s,
            ".json"@,
        ) ==> oil_row(f).text_at("title"@) == Some(s),
        f.doc.text_at("title"@) is None && !text::ends_with_spec(f.name, ".json"@) ==> oil_row(
            f,
        ).text_at("title"@) == Some(f.name),
{
    lemma_oil_all_names();
    reveal_strlit(".json");
    text::law_suffixes_go(s, ".json"@);
    text::law_suffixes_go(f.name, ".json"@);
}

/// The list of recommendations has a row for each, by title.
pub proof fn law_oils_listed(files: Seq<FileDoc>)
    ensures
        oils_answer(files).items_at("items"@) matches Some(v) && v.len() == files.len()
            && v.to_multiset() == files.map_values(|f: FileDoc| oil_row(f)).to_multiset() && forall|
            i: int,
            j: int,
        |
            0 <= i < j < v.len() ==> text::in_order(
                (#[trigger] v[i]).text_in("title"@),
                (#[trigger] v[j]).text_in("title"@),
            ),
{
    order::law_by_text_whole(files.map_values(|f: FileDoc| oil_row(f)), "title"@);
}

/// A recommendation is kept under the name that is sent, or one made of the
/// moment.
pub proof fn law_oil_file(payload: Doc, now: nat, s: Seq<char>)
    ensures
        payload.text_at("file_name"@) == Some(s) ==> oil_file(payload, now) == names::record_name(s),
        payload.text_at("file_name"@) is None ==> oil_file(payload, now) == names::record_name(
            seq!['o', 'i', 'l', '-'] + digits::decimal(now),
        ),
        oil_stored(s).get("ok"@) == Some(Doc::Bool(true)),
        oil_stored(s).text_at("file_name"@) == Some(s),
{
    lemma_oil_all_names();
    reveal_strlit("oil-");
    assert("oil-"@ =~= seq!['o', 'i', 'l', '-']);
}

/// The variants in an answer are the list that it is, or that stands under the
/// first of six names under which one does.
pub proof fn law_variants(d: Doc, v: Seq<Doc>)
    ensures
        variants_of(Doc::Array(v)) == v,
        d.items_at("items"@) == Some(v) ==> variants_of(d) == v,
        d.items_at("items"@) is None && d.items_at("variants"@) == Some(v) ==> variants_of(d) == v,
        d.items_at("items"@) is None && d.items_at("variants"@) is None && d.items_at("data"@)
            == Some(v) ==> variants_of(d) == v,
        d.items_at("items"@) is None && d.items_at("variants"@) is None && d.items_at("data"@) is None
            && d.items_at("results"@) == Some(v) ==> variants_of(d) == v,
        d.items_at("items"@) is None && d.items_at("variants"@) is None && d.items_at("data"@) is None
            && d.items_at("results"@) is None && d.items_at("cars"@) == Some(v) ==> variants_of(d)
            == v,
        d.items_at("items"@) is None && d.items_at("variants"@) is None && d.items_at("data"@) is None
            && d.items_at("results"@) is None && d.items_at("cars"@) is None && d.items_at("types"@)
            == Some(v) ==> variants_of(d) == v,
{
}

/// Where no list stands under the six names, the variants are the list of
/// objects under the smallest name that has one; where there is none, there are
/// no variants.
pub proof fn law_variants_elsewhere(d: Doc, k: Seq<char>, v: Seq<Doc>)
    requires
        !(d is Array),
        d.items_at("items"@) is None,
        d.items_at("variants"@) is None,
        d.items_at("data"@) is None,
        d.items_at("results"@) is None,
        d.items_at("cars"@) is None,
        d.items_at("types"@) is None,
    ensures
        d.get(k) == Some(Doc::Array(v)) && (forall|i: int|
            0 <= i < v.len() ==> (#[trigger] v[i]) is Object) && (forall|other: Seq<char>|
            (d.get(other) matches Some(w) && object_list(w)) ==> #[trigger] text::in_order(k, other))
            ==> variants_of(d) == v,
        (forall|other: Seq<char>| !((#[trigger] d.get(other)) is Some && object_list(d.get(other)->0)))
            ==> variants_of(d).len() == 0,
{
    if d.get(k) == Some(Doc::Array(v)) && (forall|i: int|
        0 <= i < v.len() ==> (#[trigger] v[i]) is Object) && (forall|other: Seq<char>|
        (d.get(other) matches Some(w) && object_list(w)) ==> #[trigger] text::in_order(k, other)) {
        assert(object_list(Doc::Array(v)));
        assert(first_object_list(d, k));
        let c = choose|c: Seq<char>| first_object_list(d, c);
        assert(first_object_list(d, c));
        assert(text::in_order(k, c));
        assert(text::in_order(c, k));
        text::lemma_in_order_both(k, c);
    }
    if forall|other: Seq<char>|
        !((#[trigger] d.get(other)) is Some && object_list(d.get(other)->0)) {
        if exists|c: Seq<char>| first_object_list(d, c) {
            let c = choose|c: Seq<char>| first_object_list(d, c);
            assert(d.get(c) is Some);
        }
    }
}

proof fn lemma_first_of_four(d: Doc, a: Seq<char>, b: Seq<char>, c: Seq<char>, e: Seq<char>)
    ensures
        first_member(d, seq![a, b, c, e]) == if d.has(a) {
            d.get(a)
        } else if d.has(b) {
            d.get(b)
        } else if d.has(c) {
            d.get(c)
        } else {
            d.get(e)
        },
        first_member(d, seq![a, b, c]) == if d.has(a) {
            d.get(a)
        } else if d.has(b) {
            d.get(b)
        } else {
            d.get(c)
        },
{
    reveal_with_fuel(first_member, 5);
    let ks = seq![a, b, c, e];
    assert(ks.drop_last() =~= seq![a, b, c]);
    assert(seq![a, b, c].drop_last() =~= seq![a, b]);
    assert(seq![a, b].drop_last() =~= seq![a]);
    assert(seq![a].drop_last() =~= Seq::<Seq<char>>::empty());
}

/// The token of a variant is the first of four members that it has: a text, or
/// a whole number in digits.
pub proof fn law_variant_token(variant: Doc, k: Seq<char>, s: Seq<char>, n: i64)
    requires
        (k == "slug_or_id"@) || (k == "slug"@ && !variant.has("slug_or_id"@)) || (k == "id"@
            && !variant.has("slug_or_id"@) && !variant.has("slug"@)) || (k == "code"@ && !variant.has(
            "slug_or_id"@,
        ) && !variant.has("slug"@) && !variant.has("id"@)),
    ensures
        variant.get(k) == Some(Doc::Str(s)) ==> token_of(variant) == Some(s),
        variant.get(k) == Some(Doc::num(n as int)) ==> token_of(variant) == Some(
            digits::signed_decimal(n as int),
        ),
        variant.has(k) && variant.get(k)->0.text() is None && variant.get(k)->0.integer() is None
            ==> token_of(variant) is None,
        k == "code"@ && !variant.has(k) ==> token_of(variant) is None,
{
    lemma_first_of_four(variant, "slug_or_id"@, "slug"@, "id"@, "code"@);
    lemma_oil_all_names();
}

/// A variant is called by the text of the first of three members that it has,
/// or by its token, or by one word for all.
pub proof fn law_variant_label(variant: Doc, k: Seq<char>, s: Seq<char>)
    requires
        (k == "name"@) || (k == "title"@ && !variant.has("name"@)) || (k == "label"@ && !variant.has(
            "name"@,
        ) && !variant.has("title"@)),
    ensures
        variant.get(k) == Some(Doc::Str(s)) ==> label_of(variant) == s,
        (variant.has(k) || k == "label"@) && variant.text_at(k) is None ==> label_of(variant)
            == match token_of(variant) {
            Some(t) => t,
            None => "variant"@,
        },
{
    lemma_first_of_four(variant, "name"@, "title"@, "label"@, "code"@);
    lemma_oil_all_names();
}

/// What is kept of a recommendation that was fetched.
pub proof fn law_snapshot(
    variant: Doc,
    token: Seq<char>,
    plate: Seq<char>,
    data: Doc,
    now: u64,
    k: Seq<char>,
)
    ensures
        ({
            let s = snapshot(variant, token, plate, data, now);
            &&& s.text_at("title"@) == Some(label_of(variant))
            &&& s.text_at("token"@) == Some(token)
            &&& s.text_at("plate"@) == Some(plate)
            &&& s.whole_at("fetched_ms"@) == Some(now)
            &&& s.get("variant"@) == Some(variant)
            &&& s.get("data"@) == Some(data)
            &&& s.has(k) ==> k == "title"@ || k == "token"@ || k == "plate"@ || k == "fetched_ms"@
                || k == "variant"@ || k == "data"@
        }),
{
    lemma_oil_all_names();
}

/// The file of a recommendation is called as the variant is. Where another
/// variant with a token of its own is called the same, the token stands in the
/// name too.
pub proof fn law_snapshot_called(variants: Seq<Doc>, i: int, j: int, t: Seq<char>)
    requires
        0 <= i < variants.len(),
        token_of(variants[i]) == Some(t),
    ensures
        0 <= j < variants.len() && token_of(variants[j]) is Some && token_of(variants[j]) != Some(t)
            && names::safe_name(label_of(variants[j])) == names::safe_name(label_of(variants[i]))
            ==> snapshot_name(variants, i) == names::safe_name(label_of(variants[i])) + seq!['-', '-']
            + names::code_of(t) + ".json"@,
        names::safe_name(label_of(variants[i])) == "_step-a"@ ==> snapshot_name(variants, i)
            == names::safe_name(label_of(variants[i])) + seq!['-', '-'] + names::code_of(t)
            + ".json"@,
        names::safe_name(label_of(variants[i])) != "_step-a"@ && (forall|m: int|
            0 <= m < variants.len() && token_of(#[trigger] variants[m]) is Some && token_of(
                variants[m],
            ) != Some(t) ==> names::safe_name(label_of(variants[m])) != names::safe_name(
                label_of(variants[i]),
            ) && names::safe_name(label_of(variants[m])) + seq!['-', '-'] + names::code_of(
                token_of(variants[m])->0,
            ) != names::safe_name(label_of(variants[i]))) ==> snapshot_name(variants, i)
            == names::safe_name(label_of(variants[i])) + ".json"@,
        snapshot_name(variants, i) == names::safe_name(label_of(variants[i])) + ".json"@
            || snapshot_name(variants, i) == names::safe_name(label_of(variants[i])) + seq!['-', '-']
            + names::code_of(t) + ".json"@,
{
    reveal_strlit("--");
    assert("--"@ =~= seq!['-', '-']);
    if 0 <= j < variants.len() && token_of(variants[j]) is Some && token_of(variants[j]) != Some(t)
        && names::safe_name(label_of(variants[j])) == names::safe_name(label_of(variants[i])) {
        assert(contests(variants[i], variants[j]));
    }
    if exists|m: int| 0 <= m < variants.len() && contests(variants[i], #[trigger] variants[m]) {
        let m = choose|m: int|
            0 <= m < variants.len() && contests(variants[i], #[trigger] variants[m]);
        assert(token_of(variants[m]) is Some);
    }
}

/// What the report says of a variant: that it was saved, and where, or what
/// went wrong.
pub proof fn law_report_row(variants: Seq<Doc>, i: int, t: Seq<char>, m: Seq<char>)
    requires
        0 <= i < variants.len(),
    ensures
        token_of(variants[i]) == Some(t) ==> {
            &&& saved_row(variants, i, FetchDoc::Written) matches Some(r) && r.text_at("file_name"@)
                == Some(snapshot_name(variants, i)) && r.text_at("title"@) == Some(
                label_of(variants[i]),
            )
            &&& saved_row(variants, i, FetchDoc::Unwritten) is None
            &&& saved_row(variants, i, FetchDoc::Failed(m)) is None
            &&& error_row(variants[i], FetchDoc::Written) is None
            &&& error_row(variants[i], FetchDoc::Unwritten) is None
            &&& error_row(variants[i], FetchDoc::Failed(m)) matches Some(r) && r.text_at("token"@)
                == Some(t) && r.text_at("title"@) == Some(label_of(variants[i])) && r.text_at(
                "error"@,
            ) == Some(m)
        },
        token_of(variants[i]) is None ==> forall|f: FetchDoc|
            (#[trigger] saved_row(variants, i, f)) is None,
        token_of(variants[i]) is None ==> forall|f: FetchDoc|
            (#[trigger] error_row(variants[i], f)) is Some && error_row(variants[i], f)->0.get(
                "variant"@,
            ) == Some(variants[i]) && error_row(variants[i], f)->0.text_at("error"@) == Some(
                "no token"@,
            ),
{
    lemma_oil_all_names();
}

/// The report has the rows of all variants, in their order.
pub proof fn law_report_grows(variants: Seq<Doc>, fetches: Seq<FetchDoc>, n: nat)
    requires
        n < variants.len(),
        variants.len() == fetches.len(),
    ensures
        report_rows(variants, fetches, 0).0.len() == 0,
        report_rows(variants, fetches, 0).1.len() == 0,
        saved_row(variants, n as int, fetches[n as int]) matches Some(r) ==> report_rows(
            variants,
            fetches,
            n + 1,
        ).0 == report_rows(variants, fetches, n).0.push(r),
        saved_row(variants, n as int, fetches[n as int]) is None ==> report_rows(
            variants,
            fetches,
            n + 1,
        ).0 == report_rows(variants, fetches, n).0,
        error_row(variants[n as int], fetches[n as int]) matches Some(r) ==> report_rows(
            variants,
            fetches,
            n + 1,
        ).1 == report_rows(variants, fetches, n).1.push(r),
        error_row(variants[n as int], fetches[n as int]) is None ==> report_rows(
            variants,
            fetches,
            n + 1,
        ).1 == report_rows(variants, fetches, n).1,
{
}

/// What is answered when all were fetched: how many variants there are, which
/// were saved, and what went wrong.
pub proof fn law_fetch_report(variants: Seq<Doc>, fetches: Seq<FetchDoc>)
    requires
        variants.len() <= u64::MAX,
    ensures
        fetch_report(variants, fetches).get("ok"@) == Some(Doc::Bool(true)),
        fetch_report(variants, fetches).whole_at("variants_found"@) == Some(variants.len() as u64),
        fetch_report(variants, fetches).items_at("saved"@) == Some(
            report_rows(variants, fetches, variants.len()).0,
        ),
        fetch_report(variants, fetches).items_at("errors"@) == Some(
            report_rows(variants, fetches, variants.len()).1,
        ),
{
    lemma_oil_all_names();
}

} // verus!
