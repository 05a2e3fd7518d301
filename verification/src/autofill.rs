//! Rules that fill in a job: what they apply to, and the parts, services and
//! oils that they add.
use crate::digits;
use crate::failure;
use crate::failure::{fail, Failure, Status};
use crate::json;
use crate::json::{Doc, Json};
use crate::lists;
use crate::records;
use crate::text;
use vstd::prelude::*;

verus! {

/// The fuels that a rule may be for.
pub open spec fn is_fuel(s: Seq<char>) -> bool {
    s == "petrol"@ || s == "diesel"@ || s == "petrol-electric"@ || s == "diesel-electric"@ || s
        == "electric"@
}

fn fuel_known(s: &str) -> (r: bool)
    ensures
        r == is_fuel(s@),
{
    text::same(s, "petrol") || text::same(s, "diesel") || text::same(s, "petrol-electric")
        || text::same(s, "diesel-electric") || text::same(s, "electric")
}

/// A text as a fuel is written.
pub open spec fn fuel_text(s: Seq<char>) -> Seq<char> {
    text::lowered(text::trimmed(s))
}

/// The fuel that an item of a list names, where it is a text.
pub open spec fn fuel_item(d: Doc) -> Option<Seq<char>> {
    match d.text() {
        Some(s) => Some(fuel_text(s)),
        None => None,
    }
}

/// The fuels that are named: one text, or a list of them.
pub open spec fn fuels_named(raw: Option<Doc>) -> Seq<Seq<char>> {
    match raw {
        Some(Doc::Str(s)) => seq![fuel_text(s)],
        Some(Doc::Array(v)) => lists::picked(v, |d: Doc| fuel_item(d)),
        _ => Seq::<Seq<char>>::empty(),
    }
}

/// The fuels that a rule is for, each once, in the order in which they are
/// named. None stands for all of them.
pub open spec fn fuels_of(raw: Option<Doc>) -> Seq<Seq<char>> {
    lists::first_seen(fuels_named(raw).filter(|s: Seq<char>| is_fuel(s)))
}

pub open spec fn text_docs(s: Seq<Seq<char>>) -> Seq<Doc> {
    s.map_values(|t: Seq<char>| Doc::Str(t))
}

/// A member without the space around it.
pub open spec fn tidy(d: Doc, k: Seq<char>) -> Seq<char> {
    text::trimmed(d.text_in(k))
}

pub fn tidy_text(d: &Json, k: &str) -> (r: String)
    ensures
        r@ == tidy(d@, k@),
{
    text::trim(d.text_in(k).as_str())
}

/// A part of a rule; one that does not say what is used is left out.
pub open spec fn part_of(item: Doc) -> Option<Doc> {
    if tidy(item, "used"@).len() == 0 {
        None
    } else {
        Some(
            Doc::object().with("used"@, Doc::Str(tidy(item, "used"@))).with(
                "number"@,
                Doc::Str(tidy(item, "number"@)),
            ).with("quantity"@, Doc::Str(tidy(item, "quantity"@))).with(
                "unit"@,
                Doc::Str(tidy(item, "unit"@)),
            ),
        )
    }
}

/// What a service of a rule says: a text alone, or its description.
pub open spec fn service_text(item: Doc) -> Seq<char> {
    match item {
        Doc::Str(s) => text::trimmed(s),
        other => tidy(other, "desc"@),
    }
}

/// A service of a rule; one that says nothing is left out.
pub open spec fn service_of(item: Doc) -> Option<Doc> {
    if service_text(item).len() == 0 {
        None
    } else {
        Some(Doc::object().with("desc"@, Doc::Str(service_text(item))))
    }
}

/// The items that `f` takes from the list in a member.
pub open spec fn taken(d: Doc, k: Seq<char>, f: spec_fn(Doc) -> Option<Doc>) -> Seq<Doc> {
    match d.items_at(k) {
        Some(v) => lists::picked(v, f),
        None => Seq::<Doc>::empty(),
    }
}

/// A number of years: a whole number, a number cut off behind the point, or
/// a text that holds a number.
pub open spec fn years_said(d: Doc) -> Option<i64> {
    match d.whole() {
        Some(n) => if n <= i64::MAX {
            Some(n as i64)
        } else {
            None
        },
        None => match d.rounded() {
            Some(n) => Some(n),
            None => match d.text() {
                Some(s) => digits::read_signed(text::trimmed(s)),
                None => None,
            },
        },
    }
}

/// The age from which a car gets another oil; a rule may have none.
pub open spec fn years_of(oils: Doc) -> Doc {
    match oils.get("older_than_years"@) {
        Some(d) => match years_said(d) {
            Some(n) if n > 0 => Doc::num(n as int),
            _ => Doc::Null,
        },
        None => Doc::Null,
    }
}

/// The oil that an old car gets.
pub open spec fn older_oil(oils: Doc) -> Doc {
    let none = Seq::<char>::empty();
    let (used, number) = match oils.get("older_specific"@) {
        Some(Doc::Str(s)) => (text::trimmed(s), none),
        Some(d) => (tidy(d, "used"@), tidy(d, "number"@)),
        None => (none, none),
    };
    Doc::object().with("used"@, Doc::Str(used)).with("number"@, Doc::Str(number))
}

/// The oils of a rule.
pub open spec fn oils_of(raw: Doc) -> Doc {
    Doc::object().with("enabled"@, Doc::Bool(raw.flag_at("enabled"@))).with(
        "older_than_years"@,
        years_of(raw),
    ).with("older_specific"@, older_oil(raw))
}

/// A document with a text in it trimmed, where it is there.
pub open spec fn member_trimmed(d: Doc, k: Seq<char>) -> Doc {
    match d.text_at(k) {
        Some(s) => d.with(k, Doc::Str(text::trimmed(s))),
        None => d,
    }
}

pub open spec fn doc_or_null(o: Option<Doc>) -> Doc {
    match o {
        Some(d) => d,
        None => Doc::Null,
    }
}

/// A rule in its proper form; what is no object stays as it is.
pub open spec fn proper_rule(d: Doc) -> Doc {
    member_trimmed(member_trimmed(d, "name"@), "trigger"@).with(
        "applies_to"@,
        Doc::Array(text_docs(fuels_of(d.get("applies_to"@)))),
    ).with("parts"@, Doc::Array(taken(d, "parts"@, |i: Doc| part_of(i)))).with(
        "services"@,
        Doc::Array(taken(d, "services"@, |i: Doc| service_of(i))),
    ).with("oils"@, oils_of(doc_or_null(d.get("oils"@))))
}

/// The fuels that are named.
fn named_fuels(raw: Option<&Json>) -> (r: Vec<String>)
    ensures
        text::texts(r@) == fuels_named(json::opt_doc(raw)),
{
    let mut out: Vec<String> = Vec::new();
    assert(text::texts(out@) =~= Seq::<Seq<char>>::empty());
    match raw {
        Some(Json::Str(s)) => {
            let fuel = text::lower(text::trim(s.as_str()).as_str());
            out.push(fuel);
            assert(text::texts(out@) =~= seq![fuel@]);
        },
        Some(Json::Array(v)) => {
            proof {
                json::lemma_array(*v);
            }
            let ghost all = json::docs(v@);
            let ghost f = |d: Doc| fuel_item(d);
            let mut i: usize = 0;
            assert(text::texts(out@) =~= lists::picked(all.take(0), f));
            while i < v.len()
                invariant
                    i <= v@.len(),
                    all == json::docs(v@),
                    f == (|d: Doc| fuel_item(d)),
                    text::texts(out@) == lists::picked(all.take(i as int), f),
                decreases v@.len() - i,
            {
                proof {
                    lists::lemma_picked_step(all, i as int, f);
                    assert(all[i as int] == v@[i as int]@);
                }
                if let Some(s) = v[i].text() {
                    let ghost before = out@;
                    let fuel = text::lower(text::trim(s).as_str());
                    out.push(fuel);
                    assert(text::texts(out@) =~= text::texts(before).push(fuel@));
                }
                i = i + 1;
            }
            assert(all.take(i as int) =~= all);
        },
        _ => {},
    }
    out
}

/// The fuels among some names, each once.
fn known_fuels(named: &Vec<String>) -> (r: Vec<String>)
    ensures
        text::texts(r@) == lists::first_seen(
            text::texts(named@).filter(|s: Seq<char>| is_fuel(s)),
        ),
{
    let ghost all = text::texts(named@);
    let ghost keep = |s: Seq<char>| is_fuel(s);
    let mut out: Vec<String> = Vec::new();
    let mut i: usize = 0;
    proof {
        lists::lemma_filter_none(keep);
        assert(all.take(0) =~= Seq::<Seq<char>>::empty());
        assert(text::texts(out@) =~= Seq::<Seq<char>>::empty());
    }
    while i < named.len()
        invariant
            i <= named@.len(),
            all == text::texts(named@),
            keep == (|s: Seq<char>| is_fuel(s)),
            text::texts(out@) == lists::first_seen(all.take(i as int).filter(keep)),
        decreases named@.len() - i,
    {
        let fuel = named[i].as_str();
        proof {
            lists::lemma_filter_step(all, i as int, keep);
            assert(all[i as int] == fuel@);
            let f = all.take(i as int).filter(keep);
            assert(f.push(fuel@).drop_last() =~= f);
        }
        if fuel_known(fuel) && !text::one_of(fuel, &out) {
            let ghost before = out@;
            let copy = fuel.to_owned();
            out.push(copy);
            assert(text::texts(out@) =~= text::texts(before).push(copy@));
        }
        i = i + 1;
    }
    assert(all.take(i as int) =~= all);
    out
}

pub fn list_of_texts(v: &Vec<String>) -> (r: Json)
    ensures
        r@ == Doc::Array(text_docs(text::texts(v@))),
{
    let mut out: Vec<Json> = Vec::new();
    let mut i: usize = 0;
    while i < v.len()
        invariant
            i <= v@.len(),
            out@.len() == i,
            forall|k: int| 0 <= k < i ==> (#[trigger] out@[k])@ == Doc::Str(v@[k]@),
        decreases v@.len() - i,
    {
        out.push(Json::of_text(v[i].as_str()));
        i = i + 1;
    }
    assert(json::docs(out@) =~= text_docs(text::texts(v@)));
    Json::list(out)
}

fn make_part(item: &Json) -> (r: Option<Json>)
    ensures
        json::opt_json(r) == part_of(item@),
{
    let used = tidy_text(item, "used");
    if used.as_str().is_empty() {
        return None;
    }
    Some(
        Json::object().with_text("used", used.as_str()).with_text(
            "number",
            tidy_text(item, "number").as_str(),
        ).with_text("quantity", tidy_text(item, "quantity").as_str()).with_text(
            "unit",
            tidy_text(item, "unit").as_str(),
        ),
    )
}

fn make_service(item: &Json) -> (r: Option<Json>)
    ensures
        json::opt_json(r) == service_of(item@),
{
    let desc = match item {
        Json::Str(s) => text::trim(s.as_str()),
        other => tidy_text(other, "desc"),
    };
    if desc.as_str().is_empty() {
        return None;
    }
    Some(Json::object().with_text("desc", desc.as_str()))
}

fn take_parts(d: &Json) -> (r: Json)
    ensures
        r@ == Doc::Array(taken(d@, "parts"@, |i: Doc| part_of(i))),
{
    let mut out: Vec<Json> = Vec::new();
    let ghost f = |i: Doc| part_of(i);
    assert(json::docs(out@) =~= Seq::<Doc>::empty());
    if let Some(v) = d.items_at("parts") {
        let ghost all = json::docs(v@);
        let mut i: usize = 0;
        assert(json::docs(out@) =~= lists::picked(all.take(0), f));
        while i < v.len()
            invariant
                i <= v@.len(),
                all == json::docs(v@),
                f == (|i: Doc| part_of(i)),
                json::docs(out@) == lists::picked(all.take(i as int), f),
            decreases v@.len() - i,
        {
            proof {
                lists::lemma_picked_step(all, i as int, f);
                assert(all[i as int] == v@[i as int]@);
            }
            if let Some(part) = make_part(&v[i]) {
                let ghost before = out@;
                out.push(part);
                assert(json::docs(out@) =~= json::docs(before).push(part@));
            }
            i = i + 1;
        }
        assert(all.take(i as int) =~= all);
    }
    Json::list(out)
}

fn take_services(d: &Json) -> (r: Json)
    ensures
        r@ == Doc::Array(taken(d@, "services"@, |i: Doc| service_of(i))),
{
    let mut out: Vec<Json> = Vec::new();
    let ghost f = |i: Doc| service_of(i);
    assert(json::docs(out@) =~= Seq::<Doc>::empty());
    if let Some(v) = d.items_at("services") {
        let ghost all = json::docs(v@);
        let mut i: usize = 0;
        assert(json::docs(out@) =~= lists::picked(all.take(0), f));
        while i < v.len()
            invariant
                i <= v@.len(),
                all == json::docs(v@),
                f == (|i: Doc| service_of(i)),
                json::docs(out@) == lists::picked(all.take(i as int), f),
            decreases v@.len() - i,
        {
            proof {
                lists::lemma_picked_step(all, i as int, f);
                assert(all[i as int] == v@[i as int]@);
            }
            if let Some(service) = make_service(&v[i]) {
                let ghost before = out@;
                out.push(service);
                assert(json::docs(out@) =~= json::docs(before).push(service@));
            }
            i = i + 1;
        }
        assert(all.take(i as int) =~= all);
    }
    Json::list(out)
}

fn read_years(d: &Json) -> (r: Option<i64>)
    ensures
        r == years_said(d@),
{
    if let Some(n) = d.whole() {
        if n <= i64::MAX as u64 {
            return Some(n as i64);
        }
        return None;
    }
    if let Some(n) = d.rounded() {
        return Some(n);
    }
    match d.text() {
        Some(s) => digits::parse_i64(text::trim(s).as_str()),
        None => None,
    }
}

fn make_oils(raw: &Json) -> (r: Json)
    ensures
        r@ == oils_of(raw@),
{
    let none = String::new();
    assert(none@ =~= Seq::<char>::empty());
    let years = match raw.get("older_than_years") {
        Some(d) => match read_years(d) {
            Some(n) => {
                if n > 0 {
                    Json::of_i64(n)
                } else {
                    Json::Null
                }
            },
            None => Json::Null,
        },
        None => Json::Null,
    };
    let (used, number) = match raw.get("older_specific") {
        Some(Json::Str(s)) => (text::trim(s.as_str()), none),
        Some(d) => (tidy_text(d, "used"), tidy_text(d, "number")),
        None => (String::new(), none),
    };
    assert(raw@.get("older_specific"@) is None ==> used@ =~= Seq::<char>::empty());
    let older = Json::object().with_text("used", used.as_str()).with_text(
        "number",
        number.as_str(),
    );
    Json::object().with("enabled", Json::Bool(raw.flag_at("enabled"))).with(
        "older_than_years",
        years,
    ).with("older_specific", older)
}

fn trim_member(d: Json, k: &str) -> (r: Json)
    ensures
        r@ == member_trimmed(d@, k@),
{
    let tidy = match d.text_at(k) {
        Some(s) => text::trim(s),
        None => return d,
    };
    d.with_text(k, tidy.as_str())
}

/// A rule in its proper form.
pub fn normalize_rule_payload(payload: Json) -> (r: Json)
    ensures
        r@ == proper_rule(payload@),
{
    let fuels = list_of_texts(&known_fuels(&named_fuels(payload.get("applies_to"))));
    let parts = take_parts(&payload);
    let services = take_services(&payload);
    let oils = match payload.get("oils") {
        Some(d) => make_oils(d),
        None => make_oils(&Json::Null),
    };
    trim_member(trim_member(payload, "name"), "trigger").with("applies_to", fuels).with(
        "parts",
        parts,
    ).with("services", services).with("oils", oils)
}

/// A new rule.
pub open spec fn new_rule(payload: Doc, id: Seq<char>, created: u64, now: u64) -> Doc {
    proper_rule(payload).with("id"@, Doc::Str(id)).with("created_ms"@, Doc::num(created as int)).with(
        "updated_ms"@,
        Doc::num(now as int),
    )
}

fn make_rule(payload: Json, id: &str, created: u64, now: u64) -> (r: Json)
    ensures
        r@ == new_rule(payload@, id@, created, now),
{
    normalize_rule_payload(payload).with_text("id", id).with(
        "created_ms",
        Json::of_u64(created),
    ).with("updated_ms", Json::of_u64(now))
}

/// The list of rules.
pub fn list_autofill_rules(rules: Vec<Json>) -> (r: Json)
    ensures
        r@ == failure::listing(json::docs(rules@)),
{
    failure::list_answer(rules)
}

/// The rule with that id.
pub open spec fn rule_answer(rules: Seq<Doc>, id: Seq<char>) -> Result<Doc, (Status, Seq<char>)> {
    match records::place_of_id(rules, id) {
        Some(i) => Ok(rules[i]),
        None => Err((Status::NotFound, "rule not found"@)),
    }
}

pub fn get_autofill_rule(rules: &Vec<Json>, id: &str) -> (r: Result<Json, Failure>)
    ensures
        failure::outcome(r) == rule_answer(json::docs(rules@), id@),
{
    match records::find_id(rules, id) {
        Some(i) => Ok(rules[i].clone()),
        None => Err(fail(Status::NotFound, "rule not found")),
    }
}

/// The rules with one more.
pub fn create_autofill_rule(rules: Vec<Json>, payload: Json, id: &str, now: u64) -> (r: Vec<Json>)
    ensures
        json::docs(r@) == json::docs(rules@).push(new_rule(payload@, id@, now, now)),
{
    records::add_last(rules, make_rule(payload, id, now, now))
}

/// The rules with that of an id replaced; the time of its creation stays.
pub open spec fn rules_changed(rules: Seq<Doc>, payload: Doc, id: Seq<char>, now: u64) -> Result<
    Seq<Doc>,
    (Status, Seq<char>),
> {
    match records::place_of_id(rules, id) {
        Some(i) => Ok(
            rules.update(i, new_rule(payload, id, rules[i].whole_or("created_ms"@, now), now)),
        ),
        None => Err((Status::NotFound, "rule not found"@)),
    }
}

pub fn update_autofill_rule(rules: Vec<Json>, payload: Json, id: &str, now: u64) -> (r: Result<
    Vec<Json>,
    Failure,
>)
    ensures
        failure::docs_outcome(r) == rules_changed(json::docs(rules@), payload@, id@, now),
{
    match records::find_id(&rules, id) {
        Some(i) => {
            let created = rules[i].whole_or("created_ms", now);
            Ok(records::replace_at(rules, i, make_rule(payload, id, created, now)))
        },
        None => Err(fail(Status::NotFound, "rule not found")),
    }
}

/// The rules without those of an id.
pub fn delete_autofill_rule(rules: Vec<Json>, id: &str) -> (r: Vec<Json>)
    ensures
        json::docs(r@) == records::without_id(json::docs(rules@), id@),
{
    records::drop_id(rules, id)
}

proof fn lemma_fuel_text(s: Seq<char>)
    requires
        is_fuel(s),
    ensures
        fuel_text(s) == s,
{
    reveal_strlit("petrol");
    reveal_strlit("diesel");
    reveal_strlit("petrol-electric");
    reveal_strlit("diesel-electric");
    reveal_strlit("electric");
    assert(s.len() > 0);
    assert forall|i: int| 0 <= i < s.len() implies ('a' <= #[trigger] s[i] <= 'z' || s[i] == '-') by {}
    assert(text::without_leading(s) == s);
    assert(text::without_trailing(s) == s);
    assert(vstd::utf8::is_ascii_chars(s));
    assert(text::all_small(s) =~= s);
}

/// Fuels that are each known and stand once are kept as they are.
proof fn lemma_fuels_settle(raw: Option<Doc>)
    ensures
        fuels_of(Some(Doc::Array(text_docs(fuels_of(raw))))) == fuels_of(raw),
{
    let keep = |s: Seq<char>| is_fuel(s);
    let f = |d: Doc| fuel_item(d);
    let named = fuels_named(raw);
    let fuels = fuels_of(raw);
    let kept = named.filter(keep);
    lists::lemma_first_seen(kept);
    assert forall|i: int| 0 <= i < fuels.len() implies is_fuel(#[trigger] fuels[i]) by {
        assert(kept.contains(fuels[i]));
        lists::lemma_filter_holds(named, keep, fuels[i]);
        assert(keep(fuels[i]));
    }
    let again = text_docs(fuels);
    lemma_named_again(fuels);
    assert forall|i: int| 0 <= i < fuels.len() implies keep(#[trigger] fuels[i]) by {
        assert(is_fuel(fuels[i]));
    }
    lists::lemma_filter_all(fuels, keep);
    lists::lemma_all_first_seen(fuels);
}

proof fn lemma_named_again(fuels: Seq<Seq<char>>)
    requires
        forall|i: int| 0 <= i < fuels.len() ==> is_fuel(#[trigger] fuels[i]),
    ensures
        lists::picked(text_docs(fuels), |d: Doc| fuel_item(d)) == fuels,
    decreases fuels.len(),
{
    if fuels.len() > 0 {
        let front = fuels.drop_last();
        assert forall|i: int| 0 <= i < front.len() implies is_fuel(#[trigger] front[i]) by {
            assert(front[i] == fuels[i]);
        }
        lemma_named_again(front);
        assert(text_docs(fuels).drop_last() =~= text_docs(front));
        assert(is_fuel(fuels[fuels.len() - 1]));
        lemma_fuel_text(fuels.last());
        assert(text_docs(fuels).last() == Doc::Str(fuels.last()));
        assert(fuels =~= front.push(fuels.last()));
    }
}

proof fn lemma_part_names()
    ensures
        "used"@ != "number"@,
        "used"@ != "quantity"@,
        "used"@ != "unit"@,
        "number"@ != "quantity"@,
        "number"@ != "unit"@,
        "quantity"@ != "unit"@,
{
    reveal_strlit("used");
    reveal_strlit("number");
    reveal_strlit("quantity");
    reveal_strlit("unit");
    assert("used"@[1] != "unit"@[1]);
    assert("used"@.len() == 4 && "number"@.len() == 6 && "quantity"@.len() == 8);
}

proof fn lemma_part_settles(item: Doc)
    ensures
        part_of(item) matches Some(p) ==> part_of(p) == Some(p),
{
    lemma_part_names();
    text::law_trim_settles(item.text_in("used"@));
    text::law_trim_settles(item.text_in("number"@));
    text::law_trim_settles(item.text_in("quantity"@));
    text::law_trim_settles(item.text_in("unit"@));
}

proof fn lemma_service_settles(item: Doc)
    ensures
        service_of(item) matches Some(p) ==> service_of(p) == Some(p),
{
    match item {
        Doc::Str(s) => {
            text::law_trim_settles(s);
        },
        other => {
            text::law_trim_settles(other.text_in("desc"@));
        },
    }
}

/// Items that `f` leaves as they are once it has made them are taken again as
/// they are.
proof fn lemma_taken_settle(v: Seq<Doc>, f: spec_fn(Doc) -> Option<Doc>)
    requires
        forall|d: Doc| #[trigger] f(d) is Some ==> f(f(d)->0) == f(d),
    ensures
        lists::picked(lists::picked(v, f), f) == lists::picked(v, f),
{
    let once = lists::picked(v, f);
    assert forall|i: int| 0 <= i < once.len() implies f(#[trigger] once[i]) == Some(once[i]) by {
        lists::lemma_picked_from(v, f, i);
        let j = choose|j: int| 0 <= j < v.len() && f(#[trigger] v[j]) == Some(once[i]);
        assert(f(v[j]) == Some(once[i]));
    }
    lists::lemma_picked_all(once, f);
}

proof fn lemma_oil_names()
    ensures
        "enabled"@ != "older_than_years"@,
        "enabled"@ != "older_specific"@,
        "older_than_years"@ != "older_specific"@,
{
    reveal_strlit("enabled");
    reveal_strlit("older_than_years");
    reveal_strlit("older_specific");
    assert("enabled"@.len() == 7 && "older_than_years"@.len() == 16 && "older_specific"@.len()
        == 14);
}

proof fn lemma_oils_settle(raw: Doc)
    ensures
        oils_of(oils_of(raw)) == oils_of(raw),
{
    lemma_oil_names();
    lemma_part_names();
    let none = Seq::<char>::empty();
    assert(text::trimmed(none) =~= none);
    match raw.get("older_specific"@) {
        Some(Doc::Str(s)) => {
            text::law_trim_settles(s);
        },
        Some(d) => {
            text::law_trim_settles(d.text_in("used"@));
            text::law_trim_settles(d.text_in("number"@));
        },
        None => {},
    }
    let once = oils_of(raw);
    assert(years_of(once) == years_of(raw));
    assert(older_oil(once) == older_oil(raw));
    assert(once.flag_at("enabled"@) == raw.flag_at("enabled"@));
}

proof fn lemma_rule_names()
    ensures
        "name"@ != "trigger"@,
        "name"@ != "applies_to"@,
        "name"@ != "parts"@,
        "name"@ != "services"@,
        "name"@ != "oils"@,
        "trigger"@ != "applies_to"@,
        "trigger"@ != "parts"@,
        "trigger"@ != "services"@,
        "trigger"@ != "oils"@,
        "applies_to"@ != "parts"@,
        "applies_to"@ != "services"@,
        "applies_to"@ != "oils"@,
        "parts"@ != "services"@,
        "parts"@ != "oils"@,
        "services"@ != "oils"@,
{
    reveal_strlit("name");
    reveal_strlit("trigger");
    reveal_strlit("applies_to");
    reveal_strlit("parts");
    reveal_strlit("services");
    reveal_strlit("oils");
    assert("name"@[0] != "oils"@[0]);
    assert("name"@.len() == 4 && "trigger"@.len() == 7 && "applies_to"@.len() == 10);
    assert("parts"@.len() == 5 && "services"@.len() == 8 && "oils"@.len() == 4);
}

/// A rule in its proper form stays as it is when it is put in its proper form
/// again.
pub proof fn law_rule_settles(d: Doc)
    ensures
        proper_rule(proper_rule(d)) == proper_rule(d),
{
    if d is Object {
        lemma_rule_names();
        let once = proper_rule(d);
        let base = member_trimmed(member_trimmed(d, "name"@), "trigger"@);
        if let Some(s) = d.text_at("name"@) {
            text::law_trim_settles(s);
        }
        if let Some(s) = d.text_at("trigger"@) {
            text::law_trim_settles(s);
        }
        lemma_fuels_settle(d.get("applies_to"@));
        let part = |i: Doc| part_of(i);
        let service = |i: Doc| service_of(i);
        assert forall|i: Doc| #[trigger] part(i) is Some implies part(part(i)->0) == part(i) by {
            lemma_part_settles(i);
        }
        assert forall|i: Doc| #[trigger] service(i) is Some implies service(service(i)->0)
            == service(i) by {
            lemma_service_settles(i);
        }
        if let Some(v) = d.items_at("parts"@) {
            lemma_taken_settle(v, part);
        }
        if let Some(v) = d.items_at("services"@) {
            lemma_taken_settle(v, service);
        }
        lemma_oils_settle(doc_or_null(d.get("oils"@)));
        assert(taken(once, "parts"@, part) == taken(d, "parts"@, part));
        assert(taken(once, "services"@, service) == taken(d, "services"@, service));
        assert(fuels_of(once.get("applies_to"@)) == fuels_of(d.get("applies_to"@)));
        assert(oils_of(doc_or_null(once.get("oils"@))) == oils_of(doc_or_null(d.get("oils"@))));
        let named = member_trimmed(once, "name"@);
        assert(named->Object_0 =~= once->Object_0);
        let triggered = member_trimmed(named, "trigger"@);
        assert(triggered->Object_0 =~= once->Object_0);
        assert(proper_rule(once)->Object_0 =~= once->Object_0);
    }
}

/// The fuels of a rule are known ones, each at most once; where none is named
/// that is known, the list is empty.
pub proof fn law_fuels_known(raw: Option<Doc>)
    ensures
        fuels_of(raw).no_duplicates(),
        forall|i: int| 0 <= i < fuels_of(raw).len() ==> is_fuel(#[trigger] fuels_of(raw)[i]),
{
    let keep = |s: Seq<char>| is_fuel(s);
    let kept = fuels_named(raw).filter(keep);
    lists::lemma_first_seen(kept);
    assert forall|i: int| 0 <= i < fuels_of(raw).len() implies is_fuel(
        #[trigger] fuels_of(raw)[i],
    ) by {
        assert(kept.contains(fuels_of(raw)[i]));
        lists::lemma_filter_holds(fuels_named(raw), keep, fuels_of(raw)[i]);
        assert(keep(fuels_of(raw)[i]));
    }
}

/// A rule that was stored is the one that is read by its id, unless another
/// with that id stood before it.
pub proof fn law_created_rule_is_read(rules: Seq<Doc>, payload: Doc, id: Seq<char>, now: u64)
    requires
        payload.is_object(),
        records::place_of_id(rules, id) is None,
    ensures
        rule_answer(rules.push(new_rule(payload, id, now, now)), id) == Ok::<
            Doc,
            (Status, Seq<char>),
        >(new_rule(payload, id, now, now)),
{
    let r = new_rule(payload, id, now, now);
    lemma_rule_is_called(payload, id, now, now);
    let all = rules.push(r);
    assert(all.drop_last() =~= rules);
    assert(all.last() == r);
}

proof fn lemma_rule_is_called(payload: Doc, id: Seq<char>, created: u64, now: u64)
    requires
        payload.is_object(),
    ensures
        records::has_id(new_rule(payload, id, created, now), id),
{
    reveal_strlit("id");
    reveal_strlit("created_ms");
    reveal_strlit("updated_ms");
    assert("id"@.len() == 2 && "created_ms"@.len() == 10 && "updated_ms"@.len() == 10);
}

/// No two of these names are the same.
proof fn lemma_rule_all_names()
    ensures
        "name"@.len() == 4,
        "trigger"@.len() == 7,
        "applies_to"@.len() == 10,
        "parts"@.len() == 5,
        "services"@.len() == 8,
        "oils"@.len() == 4,
        "id"@.len() == 2,
        "created_ms"@.len() == 10,
        "updated_ms"@.len() == 10,
        "name"@ != "oils"@,
        "applies_to"@ != "created_ms"@,
        "applies_to"@ != "updated_ms"@,
        "created_ms"@ != "updated_ms"@,
{
    reveal_strlit("name");
    reveal_strlit("trigger");
    reveal_strlit("applies_to");
    reveal_strlit("parts");
    reveal_strlit("services");
    reveal_strlit("oils");
    reveal_strlit("id");
    reveal_strlit("created_ms");
    reveal_strlit("updated_ms");
    assert("name"@[0] != "oils"@[0]);
    assert("applies_to"@[0] != "created_ms"@[0]);
    assert("applies_to"@[0] != "updated_ms"@[0]);
    assert("created_ms"@[0] != "updated_ms"@[0]);
}

proof fn lemma_fuel_literals(f: Seq<char>)
    requires
        f == "petrol"@ || f == "diesel"@ || f == "petrol-electric"@ || f == "diesel-electric"@ || f
            == "electric"@,
    ensures
        text::lowered(text::trimmed(f)) == f,
{
    lemma_fuel_text(f);
}

proof fn lemma_fuels_hold(raw: Option<Doc>, f: Seq<char>)
    ensures
        fuels_of(raw).contains(f) <==> is_fuel(f) && fuels_named(raw).contains(f),
{
    let keep = |s: Seq<char>| is_fuel(s);
    let kept = fuels_named(raw).filter(keep);
    lists::lemma_first_seen_has(kept, f);
    lists::lemma_filter_holds(fuels_named(raw), keep, f);
}

/// Whether a rule in its proper form is for a fuel.
pub open spec fn rule_is_for(rule: Doc, fuel: Seq<char>) -> bool {
    rule.items_at("applies_to"@) matches Some(v) && v.contains(Doc::Str(fuel))
}

proof fn lemma_rule_is_for(d: Doc, f: Seq<char>)
    requires
        d.is_object(),
    ensures
        rule_is_for(proper_rule(d), f) <==> fuels_of(d.get("applies_to"@)).contains(f),
{
    lemma_rule_all_names();
    let fuels = fuels_of(d.get("applies_to"@));
    let v = text_docs(fuels);
    assert(proper_rule(d).items_at("applies_to"@) == Some(v));
    if fuels.contains(f) {
        let k = choose|k: int| 0 <= k < fuels.len() && fuels[k] == f;
        assert(v[k] == Doc::Str(f));
    }
    if v.contains(Doc::Str(f)) {
        let k = choose|k: int| 0 <= k < v.len() && v[k] == Doc::Str(f);
        assert(fuels[k] == f);
    }
}

/// A rule is for each of five fuels that it names, as one text or in a list,
/// and for nothing else.
pub proof fn law_rule_for_fuel(d: Doc, f: Seq<char>)
    requires
        d.is_object(),
    ensures
        (f == "petrol"@ || f == "diesel"@ || f == "petrol-electric"@ || f == "diesel-electric"@ || f
            == "electric"@) && (d.get("applies_to"@) == Some(Doc::Str(f)) || (d.items_at(
            "applies_to"@,
        ) matches Some(v) && v.contains(Doc::Str(f)))) ==> rule_is_for(proper_rule(d), f),
        rule_is_for(proper_rule(d), f) ==> f == "petrol"@ || f == "diesel"@ || f
            == "petrol-electric"@ || f == "diesel-electric"@ || f == "electric"@,
{
    let raw = d.get("applies_to"@);
    lemma_rule_is_for(d, f);
    lemma_fuels_hold(raw, f);
    if f == "petrol"@ || f == "diesel"@ || f == "petrol-electric"@ || f == "diesel-electric"@ || f
        == "electric"@ {
        lemma_fuel_literals(f);
        if raw == Some(Doc::Str(f)) {
            assert(fuels_named(raw)[0] == f);
        }
        if let Some(v) = d.items_at("applies_to"@) {
            if v.contains(Doc::Str(f)) {
                let i = choose|i: int| 0 <= i < v.len() && v[i] == Doc::Str(f);
                let g = |d: Doc| fuel_item(d);
                assert(g(v[i]) == Some(f));
                lists::lemma_picked_has(v, g, i);
            }
        }
    }
}

/// Whether one of the texts of a list spells a fuel.
pub open spec fn some_spells(v: Seq<Doc>, fuel: Seq<char>) -> bool {
    exists|i: int|
        0 <= i < v.len() && (#[trigger] v[i] matches Doc::Str(s) && text::lowered(text::trimmed(s))
            == fuel)
}

/// A fuel is known whatever the case of its letters and the space around it;
/// a rule is for a fuel only where it names it so.
pub proof fn law_rule_for_fuel_spelled(d: Doc, f: Seq<char>)
    requires
        d.is_object(),
    ensures
        rule_is_for(proper_rule(d), f) ==> {
            ||| d.get("applies_to"@) matches Some(Doc::Str(s)) && text::lowered(text::trimmed(s))
                == f
            ||| d.items_at("applies_to"@) matches Some(v) && some_spells(v, f)
        },
        d.items_at("applies_to"@) matches Some(v) && some_spells(v, f) && (f == "petrol"@ || f
            == "diesel"@ || f == "petrol-electric"@ || f == "diesel-electric"@ || f == "electric"@)
            ==> rule_is_for(proper_rule(d), f),
        forall|s: Seq<char>|
            d.get("applies_to"@) == Some(Doc::Str(s)) && #[trigger] text::lowered(text::trimmed(s))
                == f && (f == "petrol"@ || f == "diesel"@ || f == "petrol-electric"@ || f
                == "diesel-electric"@ || f == "electric"@) ==> rule_is_for(proper_rule(d), f),
{
    let raw = d.get("applies_to"@);
    lemma_rule_is_for(d, f);
    lemma_fuels_hold(raw, f);
    let g = |d: Doc| fuel_item(d);
    if let Some(v) = d.items_at("applies_to"@) {
        if some_spells(v, f) {
            let i = choose|i: int|
                0 <= i < v.len() && (#[trigger] v[i] matches Doc::Str(s) && text::lowered(
                    text::trimmed(s),
                ) == f);
            assert(g(v[i]) == Some(f));
            lists::lemma_picked_has(v, g, i);
        }
    }
    if fuels_named(raw).contains(f) {
        if let Some(Doc::Array(v)) = raw {
            let named = fuels_named(raw);
            let k = choose|k: int| 0 <= k < named.len() && named[k] == f;
            lists::lemma_picked_from(v, g, k);
            let j = choose|j: int| 0 <= j < v.len() && g(#[trigger] v[j]) == Some(named[k]);
            assert(v[j] is Str && some_spells(v, f));
        }
    }
    assert forall|s: Seq<char>|
        d.get("applies_to"@) == Some(Doc::Str(s)) && #[trigger] text::lowered(text::trimmed(s)) == f
            && (f == "petrol"@ || f == "diesel"@ || f == "petrol-electric"@ || f
            == "diesel-electric"@ || f == "electric"@) implies rule_is_for(proper_rule(d), f) by {
        assert(fuels_named(raw)[0] == f);
    }
}

/// A rule that names no fuel that is known is for all: its list is empty.
pub proof fn law_rule_for_all(d: Doc)
    requires
        d.is_object(),
        !d.has("applies_to"@) || d.get("applies_to"@) == Some(Doc::Str("any"@)) || d.items_at(
            "applies_to"@,
        ) == Some(Seq::<Doc>::empty()),
    ensures
        proper_rule(d).items_at("applies_to"@) == Some(Seq::<Doc>::empty()),
{
    lemma_rule_all_names();
    reveal_strlit("any");
    reveal_strlit("petrol");
    reveal_strlit("diesel");
    reveal_strlit("petrol-electric");
    reveal_strlit("diesel-electric");
    reveal_strlit("electric");
    let raw = d.get("applies_to"@);
    let fuels = fuels_of(raw);
    let any = "any"@;
    assert(any.len() == 3);
    if raw == Some(Doc::Str(any)) {
        assert(!text::is_space(any[0]) && !text::is_space(any[2]));
        text::law_trimmed_as_is(any);
        assert(vstd::utf8::is_ascii_chars(any));
        assert(text::all_small(any).len() == 3);
    }
    if fuels.len() > 0 {
        assert(fuels.contains(fuels[0]));
        lemma_fuels_hold(raw, fuels[0]);
        assert(fuels[0].len() > 3);
    }
    assert(text_docs(fuels) =~= Seq::<Doc>::empty());
}

/// What a rule says beside its fuels, parts, services and oils stays; its name
/// and its trigger lose the space around them.
pub proof fn law_rule_keeps(d: Doc, k: Seq<char>)
    requires
        d.is_object(),
    ensures
        k != "name"@ && k != "trigger"@ && k != "applies_to"@ && k != "parts"@ && k != "services"@
            && k != "oils"@ ==> proper_rule(d).get(k) == d.get(k),
        k == "name"@ || k == "trigger"@ ==> proper_rule(d).get(k) == match d.get(k) {
            Some(Doc::Str(s)) => Some(Doc::Str(text::trimmed(s))),
            other => other,
        },
{
    lemma_rule_all_names();
}

/// A part of a rule says under each name what was sent under it, without the
/// space around it. One that does not say what is used is left out.
pub proof fn law_rule_part(item: Doc, k: Seq<char>)
    ensures
        part_of(item) is None <==> text::trimmed(item.text_in("used"@)).len() == 0,
        k == "used"@ || k == "number"@ || k == "quantity"@ || k == "unit"@ ==> (part_of(
            item,
        ) matches Some(p) ==> p.text_at(k) == Some(text::trimmed(item.text_in(k)))),
        part_of(item) matches Some(p) ==> (p.has(k) ==> k == "used"@ || k == "number"@ || k
            == "quantity"@ || k == "unit"@),
{
    lemma_part_names();
}

/// A service of a rule is a text, or what it is described as; one that says
/// nothing is left out.
pub proof fn law_rule_service(item: Doc, s: Seq<char>)
    ensures
        item == Doc::Str(s) && text::trimmed(s).len() > 0 ==> (service_of(item) matches Some(p)
            && p.text_at("desc"@) == Some(text::trimmed(s))),
        item == Doc::Str(s) && text::trimmed(s).len() == 0 ==> service_of(item) is None,
        item.get("desc"@) == Some(Doc::Str(s)) && text::trimmed(s).len() > 0 ==> (service_of(
            item,
        ) matches Some(p) && p.text_at("desc"@) == Some(text::trimmed(s))),
        item.is_object() && text::trimmed(item.text_in("desc"@)).len() == 0 ==> service_of(
            item,
        ) is None,
{
}

/// One more part or service that is sent is one more of the rule, where it
/// says something; the others stay as they are.
pub proof fn law_rule_lists(d: Doc, v: Seq<Doc>, item: Doc)
    requires
        d.is_object(),
    ensures
        proper_rule(d.with("parts"@, Doc::Array(v.push(item)))).items_at("parts"@) == Some(
            match part_of(item) {
                Some(p) => proper_rule(d.with("parts"@, Doc::Array(v))).items_at("parts"@)->0.push(
                    p,
                ),
                None => proper_rule(d.with("parts"@, Doc::Array(v))).items_at("parts"@)->0,
            },
        ),
        proper_rule(d.with("services"@, Doc::Array(v.push(item)))).items_at("services"@) == Some(
            match service_of(item) {
                Some(p) => proper_rule(d.with("services"@, Doc::Array(v))).items_at(
                    "services"@,
                )->0.push(p),
                None => proper_rule(d.with("services"@, Doc::Array(v))).items_at("services"@)->0,
            },
        ),
        proper_rule(d.with("parts"@, Doc::Array(Seq::<Doc>::empty()))).items_at("parts"@) == Some(
            Seq::<Doc>::empty(),
        ),
        d.items_at("parts"@) is None ==> proper_rule(d).items_at("parts"@) == Some(
            Seq::<Doc>::empty(),
        ),
        d.items_at("services"@) is None ==> proper_rule(d).items_at("services"@) == Some(
            Seq::<Doc>::empty(),
        ),
{
    lemma_rule_all_names();
    lists::law_picked_grows(v, item, |i: Doc| part_of(i));
    lists::law_picked_grows(v, item, |i: Doc| service_of(i));
    assert(lists::picked(Seq::<Doc>::empty(), |i: Doc| part_of(i)) =~= Seq::<Doc>::empty());
}

/// The oils of a rule: whether they are added, from which age a car gets
/// another one, and which.
pub proof fn law_rule_oils(d: Doc, raw: Doc, n: u64, s: Seq<char>)
    requires
        d.is_object(),
        d.get("oils"@) == Some(raw),
    ensures
        ({
            let oils = proper_rule(d).get("oils"@);
            &&& oils is Some
            &&& oils->0.get("enabled"@) == Some(
                Doc::Bool(raw.get("enabled"@) == Some(Doc::Bool(true))),
            )
            &&& raw.whole_at("older_than_years"@) == Some(n) && 0 < n <= i64::MAX
                ==> oils->0.whole_at("older_than_years"@) == Some(n)
            &&& raw.whole_at("older_than_years"@) == Some(0u64) ==> oils->0.get(
                "older_than_years"@,
            ) == Some(Doc::Null)
            &&& !raw.has("older_than_years"@) ==> oils->0.get("older_than_years"@) == Some(
                Doc::Null,
            )
            &&& raw.get("older_than_years"@) == Some(Doc::Str(s)) ==> oils->0.get(
                "older_than_years"@,
            ) == Some(
                match digits::read_signed(text::trimmed(s)) {
                    Some(m) => if m > 0 {
                        Doc::num(m as int)
                    } else {
                        Doc::Null
                    },
                    None => Doc::Null,
                },
            )
            &&& raw.get("older_specific"@) == Some(Doc::Str(s)) ==> (oils->0.get(
                "older_specific"@,
            ) matches Some(o) && o.text_at("used"@) == Some(text::trimmed(s)) && o.text_at(
                "number"@,
            ) == Some(Seq::<char>::empty()))
            &&& (raw.get("older_specific"@) matches Some(o) && o is Object) ==> (oils->0.get(
                "older_specific"@,
            ) matches Some(p) && p.text_at("used"@) == Some(text::trimmed(raw.get("older_specific"@)->0.text_in("used"@)))
                && p.text_at("number"@) == Some(text::trimmed(raw.get("older_specific"@)->0.text_in("number"@))))
        }),
{
    lemma_rule_all_names();
    lemma_oil_names();
    lemma_part_names();
}

/// A number of years with a fraction is cut off behind the point.
pub proof fn law_rule_years(oils: Doc, bits: u64, trunc: i64)
    requires
        oils.get("older_than_years"@) == Some(Doc::Number(json::Num::Float { bits, trunc })),
    ensures
        years_of(oils) == if trunc > 0 {
            Doc::num(trunc as int)
        } else {
            Doc::Null
        },
{
}

/// A stored rule has its id and the times; the rest is its proper form.
pub proof fn law_rule_stored(payload: Doc, id: Seq<char>, created: u64, now: u64, k: Seq<char>)
    requires
        payload.is_object(),
    ensures
        new_rule(payload, id, created, now).text_at("id"@) == Some(id),
        new_rule(payload, id, created, now).whole_at("created_ms"@) == Some(created),
        new_rule(payload, id, created, now).whole_at("updated_ms"@) == Some(now),
        k != "id"@ && k != "created_ms"@ && k != "updated_ms"@ ==> new_rule(
            payload,
            id,
            created,
            now,
        ).get(k) == proper_rule(payload).get(k),
{
    lemma_rule_all_names();
}

/// Changing a rule changes the first with its id and no other; it keeps the
/// time at which it was made.
pub proof fn law_rule_changed(rules: Seq<Doc>, payload: Doc, id: Seq<char>, now: u64, i: int)
    requires
        payload.is_object(),
    ensures
        (forall|j: int| 0 <= j < rules.len() ==> (#[trigger] rules[j]).text_at("id"@) != Some(id))
            ==> rules_changed(rules, payload, id, now) == Err::<Seq<Doc>, (Status, Seq<char>)>(
            (Status::NotFound, "rule not found"@),
        ),
        0 <= i < rules.len() && rules[i].text_at("id"@) == Some(id) && (forall|j: int|
            0 <= j < i ==> (#[trigger] rules[j]).text_at("id"@) != Some(id)) ==> (rules_changed(
            rules,
            payload,
            id,
            now,
        ) matches Ok(v) && v.len() == rules.len() && v[i] == new_rule(
            payload,
            id,
            match rules[i].whole_at("created_ms"@) {
                Some(t) => t,
                None => now,
            },
            now,
        ) && forall|j: int| 0 <= j < rules.len() && j != i ==> #[trigger] v[j] == rules[j]),
{
    records::law_found_by_id(rules, id, i);
}

/// A rule is read by its id: the first that has it.
pub proof fn law_rule_read(rules: Seq<Doc>, id: Seq<char>, i: int)
    ensures
        (forall|j: int| 0 <= j < rules.len() ==> (#[trigger] rules[j]).text_at("id"@) != Some(id))
            ==> rule_answer(rules, id) == Err::<Doc, (Status, Seq<char>)>(
            (Status::NotFound, "rule not found"@),
        ),
        0 <= i < rules.len() && rules[i].text_at("id"@) == Some(id) && (forall|j: int|
            0 <= j < i ==> (#[trigger] rules[j]).text_at("id"@) != Some(id)) ==> rule_answer(
            rules,
            id,
        ) == Ok::<Doc, (Status, Seq<char>)>(rules[i]),
{
    records::law_found_by_id(rules, id, i);
}

/// One more fuel in the list of a rule is one more that the rule is for, where
/// it is known and not there yet; the others stay in their order.
pub proof fn law_rule_fuels_grow(d: Doc, v: Seq<Doc>, s: Seq<char>)
    requires
        d.is_object(),
    ensures
        ({
            let f = text::lowered(text::trimmed(s));
            let before = proper_rule(d.with("applies_to"@, Doc::Array(v))).items_at("applies_to"@);
            let after = proper_rule(
                d.with("applies_to"@, Doc::Array(v.push(Doc::Str(s)))),
            ).items_at("applies_to"@);
            let known = f == "petrol"@ || f == "diesel"@ || f == "petrol-electric"@ || f
                == "diesel-electric"@ || f == "electric"@;
            &&& before is Some
            &&& after == if known && !before->0.contains(Doc::Str(f)) {
                Some(before->0.push(Doc::Str(f)))
            } else {
                before
            }
        }),
{
    lemma_rule_all_names();
    let f = text::lowered(text::trimmed(s));
    let keep = |x: Seq<char>| is_fuel(x);
    let g = |x: Doc| fuel_item(x);
    lists::law_picked_grows(v, Doc::Str(s), g);
    let named = lists::picked(v, g);
    lists::lemma_filter_push(named, f, keep);
    let kept = named.filter(keep);
    let had = lists::first_seen(kept);
    let d0 = d.with("applies_to"@, Doc::Array(v));
    let d1 = d.with("applies_to"@, Doc::Array(v.push(Doc::Str(s))));
    assert(fuels_of(d0.get("applies_to"@)) == had);
    assert(proper_rule(d0).items_at("applies_to"@) == Some(text_docs(had)));
    assert(proper_rule(d1).items_at("applies_to"@) == Some(
        text_docs(fuels_of(d1.get("applies_to"@))),
    ));
    if is_fuel(f) {
        assert(kept.push(f).drop_last() =~= kept);
        lemma_rule_is_for(d0, f);
        if had.contains(f) {
            assert(fuels_of(d1.get("applies_to"@)) == had);
        } else {
            assert(fuels_of(d1.get("applies_to"@)) == had.push(f));
            assert(text_docs(had.push(f)) =~= text_docs(had).push(Doc::Str(f)));
        }
    } else {
        assert(fuels_of(d1.get("applies_to"@)) == had);
    }
}

/// What is no text in the list of fuels is no fuel.
pub proof fn law_rule_fuels_are_texts(d: Doc, v: Seq<Doc>, x: Doc)
    requires
        d.is_object(),
        !(x is Str),
    ensures
        proper_rule(d.with("applies_to"@, Doc::Array(v.push(x)))).items_at("applies_to"@)
            == proper_rule(d.with("applies_to"@, Doc::Array(v))).items_at("applies_to"@),
{
    lemma_rule_all_names();
    lists::law_picked_grows(v, x, |y: Doc| fuel_item(y));
}

/// A rule that says nothing of oils adds none.
pub proof fn law_rule_without_oils(d: Doc)
    requires
        d.is_object(),
        !d.has("oils"@),
    ensures
        ({
            let oils = proper_rule(d).get("oils"@);
            &&& oils is Some
            &&& oils->0.get("enabled"@) == Some(Doc::Bool(false))
            &&& oils->0.get("older_than_years"@) == Some(Doc::Null)
            &&& oils->0.get("older_specific"@) is Some
            &&& oils->0.get("older_specific"@)->0.text_at("used"@) == Some(Seq::<char>::empty())
            &&& oils->0.get("older_specific"@)->0.text_at("number"@) == Some(Seq::<char>::empty())
        }),
{
    lemma_rule_all_names();
    lemma_oil_names();
    lemma_part_names();
    text::law_trimmed_as_is(Seq::<char>::empty());
}

/// Of the oils of a rule, an age that is no number from one up is none, and an
/// oil that is not named has no name.
pub proof fn law_rule_oils_unsaid(d: Doc, raw: Doc, n: u64, m: i64)
    requires
        d.is_object(),
        d.get("oils"@) == Some(raw),
    ensures
        ({
            let oils = proper_rule(d).get("oils"@);
            &&& oils is Some
            &&& raw.whole_at("older_than_years"@) == Some(n) && n > i64::MAX ==> oils->0.get(
                "older_than_years"@,
            ) == Some(Doc::Null)
            &&& raw.get("older_than_years"@) == Some(Doc::Number(json::Num::NegInt(m))) && m < 0
                ==> oils->0.get("older_than_years"@) == Some(Doc::Null)
            &&& !raw.has("older_specific"@) ==> oils->0.get("older_specific"@) is Some && oils->0.get(
                "older_specific"@,
            )->0.text_at("used"@) == Some(Seq::<char>::empty()) && oils->0.get(
                "older_specific"@,
            )->0.text_at("number"@) == Some(Seq::<char>::empty())
        }),
{
    lemma_rule_all_names();
    lemma_oil_names();
    lemma_part_names();
}

} // verus!
