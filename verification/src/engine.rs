//! What a car's record says of its engine: a summary from the oil archive and
//! the displacement from the name of the variant.
use crate::digits;
use crate::json;
use crate::json::{Doc, Json};
use crate::lists;
use crate::outside;
use crate::text;
use vstd::prelude::*;

verus! {

/// Whether a file of the oil archive holds a recommendation.
pub open spec fn is_oil_file(name: Seq<char>) -> bool {
    text::ends_with_spec(name, ".json"@) && !text::starts_with_spec(name, "_"@)
}

/// The place of the file from which the engine is read: the first that holds
/// a recommendation.
pub fn pick_oil_file(names: &Vec<String>) -> (r: Option<usize>)
    ensures
        match r {
            Some(i) => lists::first_at(text::texts(names@), |n: Seq<char>| is_oil_file(n)) == Some(
                i as int,
            ),
            None => lists::first_at(text::texts(names@), |n: Seq<char>| is_oil_file(n)) is None,
        },
{
    let ghost wanted = |n: Seq<char>| is_oil_file(n);
    let ghost all = text::texts(names@);
    let mut i: usize = 0;
    while i < names.len()
        invariant
            i <= names@.len(),
            all == text::texts(names@),
            wanted == (|n: Seq<char>| is_oil_file(n)),
            forall|k: int| 0 <= k < i ==> !wanted(#[trigger] all[k]),
        decreases names@.len() - i,
    {
        let name = names[i].as_str();
        assert(all[i as int] == name@);
        if text::ends_with(name, ".json") && !text::starts_with(name, "_") {
            proof {
                lists::lemma_first_at(all, wanted, i as int);
            }
            return Some(i);
        }
        i = i + 1;
    }
    proof {
        lists::lemma_first_nowhere(all, wanted);
    }
    None
}

pub open spec fn is_engine(component: Doc) -> bool {
    component.text_at("name"@) == Some("Engine"@)
}

/// The engine among the components of a recommendation.
pub open spec fn engine_of(d: Doc) -> Option<Doc> {
    match d.get("data"@) {
        Some(data) => match data.get("type"@) {
            Some(kind) => match kind.items_at("components"@) {
                Some(parts) => match lists::first_at(parts, |c: Doc| is_engine(c)) {
                    Some(i) => Some(parts[i]),
                    None => None,
                },
                None => None,
            },
            None => None,
        },
        None => None,
    }
}

/// A number with its unit behind it, or nothing.
pub open spec fn measure(engine: Doc, key: Seq<char>, unit: Seq<char>) -> Seq<char> {
    match engine.whole_at(key) {
        Some(n) => digits::decimal(n as nat) + unit,
        None => Seq::<char>::empty(),
    }
}

/// The first of the capacities; they may be a list, or an object whose first
/// member is named `0`.
pub open spec fn first_capacity(engine: Doc) -> Doc {
    match engine.get("capacities"@) {
        Some(Doc::Array(v)) if v.len() > 0 => v[0],
        Some(Doc::Object(m)) if m.dom().contains("0"@) => m["0"@],
        _ => Doc::Null,
    }
}

pub open spec fn capacity(engine: Doc) -> Seq<char> {
    let value = first_capacity(engine).text_in("value"@);
    let unit = first_capacity(engine).text_in("unit"@);
    if value.len() == 0 {
        Seq::<char>::empty()
    } else if text::starts_with_spec(unit, "liter"@) || unit == "L"@ {
        value + " L"@
    } else if unit.len() == 0 {
        value
    } else {
        value + " "@ + unit
    }
}

/// The texts that say something, with `sep` between them.
pub open spec fn joined_filled(parts: Seq<Seq<char>>, sep: Seq<char>) -> Seq<char> {
    text::joined(parts.filter(|p: Seq<char>| p.len() > 0), sep)
}

/// The dot that stands between the parts of a summary.
pub open spec fn middle_dot() -> Seq<char> {
    seq![' ', '\u{b7}', ' ']
}

/// The summary of an engine: code, power and capacity.
pub open spec fn summary_of(engine: Doc) -> Seq<char> {
    let specs = joined_filled(
        seq![
            measure(engine, "hp"@, "HP"@),
            measure(engine, "kw"@, "KW"@),
            measure(engine, "rpm"@, "RPM"@),
        ],
        ", "@,
    );
    joined_filled(seq![engine.text_in("code"@), specs, capacity(engine)], middle_dot())
}

/// The summary that a recommendation gives, or nothing.
pub open spec fn engine_summary(d: Doc) -> Seq<char> {
    match engine_of(d) {
        Some(e) => summary_of(e),
        None => Seq::<char>::empty(),
    }
}

fn join_filled(a: String, b: String, c: String, sep: &str) -> (r: String)
    ensures
        r@ == joined_filled(seq![a@, b@, c@], sep@),
{
    let ghost all = seq![a@, b@, c@];
    let ghost keep = |p: Seq<char>| p.len() > 0;
    let mut parts: Vec<String> = Vec::new();
    proof {
        lists::lemma_filter_none(keep);
        assert(all.take(0) =~= Seq::<Seq<char>>::empty());
        lists::lemma_filter_step(all, 0, keep);
        lists::lemma_filter_step(all, 1, keep);
        lists::lemma_filter_step(all, 2, keep);
        assert(all.take(3) =~= all);
    }
    if !a.as_str().is_empty() {
        parts.push(a);
    }
    assert(text::texts(parts@) =~= all.take(1).filter(keep));
    if !b.as_str().is_empty() {
        parts.push(b);
    }
    assert(text::texts(parts@) =~= all.take(2).filter(keep));
    if !c.as_str().is_empty() {
        parts.push(c);
    }
    assert(text::texts(parts@) =~= all.filter(keep));
    text::join(&parts, sep)
}

fn find_engine(parts: &Vec<Json>) -> (r: Option<&Json>)
    ensures
        json::opt_doc(r) == match lists::first_at(json::docs(parts@), |c: Doc| is_engine(c)) {
            Some(i) => Some(json::docs(parts@)[i]),
            None => None,
        },
{
    let ghost wanted = |c: Doc| is_engine(c);
    let ghost all = json::docs(parts@);
    let mut i: usize = 0;
    while i < parts.len()
        invariant
            i <= parts@.len(),
            all == json::docs(parts@),
            wanted == (|c: Doc| is_engine(c)),
            forall|k: int| 0 <= k < i ==> !wanted(#[trigger] all[k]),
        decreases parts@.len() - i,
    {
        assert(all[i as int] == parts@[i as int]@);
        if let Some(name) = parts[i].text_at("name") {
            if text::same(name, "Engine") {
                proof {
                    lists::lemma_first_at(all, wanted, i as int);
                }
                return Some(&parts[i]);
            }
        }
        i = i + 1;
    }
    proof {
        lists::lemma_first_nowhere(all, wanted);
    }
    None
}

fn measure_text(engine: &Json, key: &str, unit: &str) -> (r: String)
    ensures
        r@ == measure(engine@, key@, unit@),
{
    match engine.whole_at(key) {
        Some(n) => text::cat(digits::number_text(n as u128).as_str(), unit),
        None => String::new(),
    }
}

fn capacity_parts(engine: &Json) -> (r: (String, String))
    ensures
        r.0@ == first_capacity(engine@).text_in("value"@),
        r.1@ == first_capacity(engine@).text_in("unit"@),
{
    match engine.get("capacities") {
        Some(Json::Array(v)) => {
            proof {
                json::lemma_array(*v);
            }
            if v.len() > 0 {
                (v[0].text_in("value"), v[0].text_in("unit"))
            } else {
                (String::new(), String::new())
            }
        },
        Some(other) => match other.get("0") {
            Some(c) => (c.text_in("value"), c.text_in("unit")),
            None => (String::new(), String::new()),
        },
        None => (String::new(), String::new()),
    }
}

fn capacity_text(engine: &Json) -> (r: String)
    ensures
        r@ == capacity(engine@),
{
    let (value, unit) = capacity_parts(engine);
    if value.as_str().is_empty() {
        String::new()
    } else if text::starts_with(unit.as_str(), "liter") || text::same(unit.as_str(), "L") {
        text::cat(value.as_str(), " L")
    } else if unit.as_str().is_empty() {
        value
    } else {
        text::cat3(value.as_str(), " ", unit.as_str())
    }
}

/// The summary of the engine that a recommendation gives.
pub fn build_engine_summary(recommendation: &Json) -> (r: String)
    ensures
        r@ == engine_summary(recommendation@),
{
    let data = match recommendation.get("data") {
        Some(d) => d,
        None => return String::new(),
    };
    let kind = match data.get("type") {
        Some(k) => k,
        None => return String::new(),
    };
    let parts = match kind.items_at("components") {
        Some(p) => p,
        None => return String::new(),
    };
    let engine = match find_engine(parts) {
        Some(e) => e,
        None => return String::new(),
    };
    let specs = join_filled(
        measure_text(engine, "hp", "HP"),
        measure_text(engine, "kw", "KW"),
        measure_text(engine, "rpm", "RPM"),
        ", ",
    );
    let mut dot = String::new();
    dot.push(' ');
    dot.push('\u{b7}');
    dot.push(' ');
    assert(dot@ =~= middle_dot());
    join_filled(engine.text_in("code"), specs, capacity_text(engine), dot.as_str())
}

/// The pattern of a displacement in the name of a variant.
pub open spec fn displacement_pattern() -> Seq<char> {
    "\\b(\\d{1,2}\\.\\d)\\b"@
}

/// One or two digits, a dot and a digit, from 0.5 to 10.0.
pub open spec fn is_displacement(m: Seq<char>) -> bool {
    &&& m.len() == 3 || m.len() == 4
    &&& m[m.len() - 2] == '.'
    &&& digits::all_digits(m.take(m.len() - 2).push(m.last()))
    &&& 5 <= digits::value_of(m.take(m.len() - 2).push(m.last())) <= 100
}

/// The displacement, given what the search for it found.
pub open spec fn displacement_from(found: Result<Option<Seq<char>>, Seq<char>>) -> Seq<char> {
    match found {
        Ok(Some(m)) if is_displacement(m) => m,
        _ => Seq::<char>::empty(),
    }
}

/// The displacement that the name of a variant gives, or nothing.
pub open spec fn displacement_of(name: Seq<char>) -> Seq<char> {
    if text::trimmed(name).len() == 0 {
        Seq::<char>::empty()
    } else {
        displacement_from(outside::first_group(displacement_pattern(), text::trimmed(name)))
    }
}

fn fits_displacement(m: &str) -> (r: bool)
    ensures
        r == is_displacement(m@),
{
    let cs = text::chars_of(m);
    let n = cs.len();
    if n != 3 && n != 4 {
        return false;
    }
    if cs[n - 2] != '.' {
        return false;
    }
    let mut number = text::text_of(&cs, 0, n - 2);
    number.push(cs[n - 1]);
    let ghost figures = m@.take(m@.len() - 2).push(m@.last());
    assert(number@ =~= figures);
    match digits::parse_u64(number.as_str()) {
        Some(v) => {
            // A plus sign in front would be read as well; here it is no digit.
            if cs[0] == '+' {
                assert(figures[0] == '+');
                return false;
            }
            5 <= v && v <= 100
        },
        None => {
            proof {
                if digits::all_digits(figures) {
                    assert(figures[0] != '+');
                    lemma_few_digits(figures);
                }
            }
            false
        },
    }
}

proof fn lemma_few_digits(s: Seq<char>)
    requires
        digits::all_digits(s),
        s.len() <= 3,
    ensures
        digits::value_of(s) < 1000,
{
    reveal_with_fuel(digits::value_of, 4);
    assert forall|i: int| 0 <= i < s.len() implies digits::worth(#[trigger] s[i]) <= 9 by {
        assert(digits::is_digit(s[i]));
    }
}

/// The displacement, given what the search for it found.
pub fn found_displacement(found: Result<Option<String>, String>) -> (r: String)
    ensures
        r@ == displacement_from(outside::group_view(found)),
{
    match found {
        Ok(Some(m)) => {
            if fits_displacement(m.as_str()) {
                m
            } else {
                String::new()
            }
        },
        _ => String::new(),
    }
}

/// The displacement that the name of a variant gives.
pub fn extract_displacement(name: &str) -> (r: String)
    ensures
        r@ == displacement_of(name@),
{
    let name = text::trim(name);
    if name.as_str().is_empty() {
        return String::new();
    }
    found_displacement(outside::capture_first_group("\\b(\\d{1,2}\\.\\d)\\b", name.as_str()))
}

/// The name of the variant in a car's record.
pub open spec fn variant_name(car: Doc) -> Seq<char> {
    match car.get("mpmoil_variant"@) {
        Some(v) => v.text_in("name"@),
        None => Seq::<char>::empty(),
    }
}

pub fn variant_name_of(car: &Json) -> (r: String)
    ensures
        r@ == variant_name(car@),
{
    match car.get("mpmoil_variant") {
        Some(v) => v.text_in("name"),
        None => String::new(),
    }
}

/// Whether the record does not yet say what was derived.
pub open spec fn derived_stale(car: Doc, summary: Seq<char>, displacement: Seq<char>) -> bool {
    car.text_in("engine_summary"@) != summary || car.text_in("displacement"@) != displacement
}

/// The record with what was derived.
pub open spec fn derived_set(car: Doc, summary: Seq<char>, displacement: Seq<char>) -> Doc {
    car.with("engine_summary"@, Doc::Str(summary)).with("displacement"@, Doc::Str(displacement))
}

/// The record to write back, where it changes.
pub open spec fn derived_write(car: Doc, summary: Seq<char>, displacement: Seq<char>) -> Option<Doc> {
    if derived_stale(car, summary, displacement) && car.is_object() {
        Some(derived_set(car, summary, displacement))
    } else {
        None
    }
}

/// What is derived from a car's record and its oil archive: the record to
/// write back where it changes, and the displacement.
pub fn refresh_car_derived_cache(car: &Json, summary: &str) -> (r: (Option<Json>, String))
    ensures
        r.1@ == displacement_of(variant_name(car@)),
        json::opt_json(r.0) == derived_write(car@, summary@, displacement_of(variant_name(car@))),
{
    let displacement = extract_displacement(variant_name_of(car).as_str());
    let write = derived_update(car, summary, displacement.as_str());
    (write, displacement)
}

/// The record to write back, where it changes.
pub fn derived_update(car: &Json, summary: &str, displacement: &str) -> (r: Option<Json>)
    ensures
        json::opt_json(r) == derived_write(car@, summary@, displacement@),
{
    let stale = !text::same(car.text_in("engine_summary").as_str(), summary) || !text::same(
        car.text_in("displacement").as_str(),
        displacement,
    );
    if stale && car.is_object() {
        Some(
            car.clone().with_text("engine_summary", summary).with_text("displacement", displacement),
        )
    } else {
        None
    }
}

/// A record that says what was derived is not written again.
pub proof fn law_derived_settles(car: Doc, summary: Seq<char>, displacement: Seq<char>)
    ensures
        derived_write(car, summary, displacement) matches Some(d) ==> derived_write(
            d,
            summary,
            displacement,
        ) is None,
{
    reveal_strlit("engine_summary");
    reveal_strlit("displacement");
    assert("engine_summary"@ != "displacement"@) by {
        assert("engine_summary"@.len() != "displacement"@.len());
    }
}

/// The text of a member where it says something; what `compute` gives where
/// it does not.
pub fn json_str_or_else<F: FnOnce() -> String>(json: &Json, key: &str, compute: F) -> (r: String)
    requires
        compute.requires(()),
    ensures
        if json@.text_in(key@).len() > 0 {
            r@ == json@.text_in(key@)
        } else {
            compute.ensures((), r)
        },
{
    let s = json.text_in(key);
    if s.as_str().is_empty() {
        compute()
    } else {
        s
    }
}

/// No two of these names are the same.
proof fn lemma_engine_names()
    ensures
        "name"@.len() == 4,
        "data"@.len() == 4,
        "type"@.len() == 4,
        "components"@.len() == 10,
        "hp"@.len() == 2,
        "kw"@.len() == 2,
        "rpm"@.len() == 3,
        "capacities"@.len() == 10,
        "value"@.len() == 5,
        "unit"@.len() == 4,
        "code"@.len() == 4,
        "engine_summary"@.len() == 14,
        "displacement"@.len() == 12,
        "mpmoil_variant"@.len() == 14,
        "name"@ != "data"@,
        "name"@ != "type"@,
        "name"@ != "unit"@,
        "name"@ != "code"@,
        "data"@ != "type"@,
        "data"@ != "unit"@,
        "data"@ != "code"@,
        "type"@ != "unit"@,
        "type"@ != "code"@,
        "components"@ != "capacities"@,
        "hp"@ != "kw"@,
        "unit"@ != "code"@,
        "engine_summary"@ != "mpmoil_variant"@,
{
    reveal_strlit("name");
    reveal_strlit("data");
    reveal_strlit("type");
    reveal_strlit("components");
    reveal_strlit("hp");
    reveal_strlit("kw");
    reveal_strlit("rpm");
    reveal_strlit("capacities");
    reveal_strlit("value");
    reveal_strlit("unit");
    reveal_strlit("code");
    reveal_strlit("engine_summary");
    reveal_strlit("displacement");
    reveal_strlit("mpmoil_variant");
    assert("name"@[0] != "data"@[0]);
    assert("name"@[0] != "type"@[0]);
    assert("name"@[0] != "unit"@[0]);
    assert("name"@[0] != "code"@[0]);
    assert("data"@[0] != "type"@[0]);
    assert("data"@[0] != "unit"@[0]);
    assert("data"@[0] != "code"@[0]);
    assert("type"@[0] != "unit"@[0]);
    assert("type"@[0] != "code"@[0]);
    assert("components"@[1] != "capacities"@[1]);
    assert("hp"@[0] != "kw"@[0]);
    assert("unit"@[0] != "code"@[0]);
    assert("engine_summary"@[0] != "mpmoil_variant"@[0]);
}

/// The files that hold oils end in `.json` and do not begin with a bar.
pub proof fn law_oil_files(name: Seq<char>)
    ensures
        is_oil_file(name) <==> text::ends_with_spec(name, ".json"@) && name[0] != '_',
{
    reveal_strlit("_");
    reveal_strlit(".json");
    assert("_"@ =~= seq!['_']);
    if text::ends_with_spec(name, ".json"@) {
        assert(name.take(1) =~= seq![name[0]]);
        text::law_prefix("_"@, name);
        if text::starts_with_spec(name, "_"@) {
            assert(("_"@ + name.skip(1))[0] == '_');
        } else if name[0] == '_' {
            assert(name =~= "_"@ + name.skip(1));
            text::law_prefix("_"@, name.skip(1));
        }
    }
}

/// The engine is the first component with that name; where there is none, or
/// nothing that could hold it, there is no engine.
pub proof fn law_engine_found(d: Doc, parts: Seq<Doc>, i: int)
    ensures
        !d.has("data"@) ==> engine_of(d) is None,
        d.has("data"@) && !d.get("data"@)->0.has("type"@) ==> engine_of(d) is None,
        d.has("data"@) && d.get("data"@)->0.has("type"@) && d.get("data"@)->0.get(
            "type"@,
        )->0.items_at("components"@) == Some(parts) ==> {
            &&& 0 <= i < parts.len() && parts[i].text_at("name"@) == Some("Engine"@) && (forall|
                j: int,
            |
                0 <= j < i ==> (#[trigger] parts[j]).text_at("name"@) != Some("Engine"@))
                ==> engine_of(d) == Some(parts[i])
            &&& (forall|j: int|
                0 <= j < parts.len() ==> (#[trigger] parts[j]).text_at("name"@) != Some(
                    "Engine"@,
                )) ==> engine_of(d) is None
        },
{
    let wanted = |c: Doc| is_engine(c);
    if 0 <= i < parts.len() && parts[i].text_at("name"@) == Some("Engine"@) && (forall|j: int|
        0 <= j < i ==> (#[trigger] parts[j]).text_at("name"@) != Some("Engine"@)) {
        assert forall|k: int| 0 <= k < i implies !wanted(#[trigger] parts[k]) by {
            assert(parts[k].text_at("name"@) != Some("Engine"@));
        }
        lists::lemma_first_at(parts, wanted, i);
    }
    if forall|j: int|
        0 <= j < parts.len() ==> (#[trigger] parts[j]).text_at("name"@) != Some("Engine"@) {
        assert forall|k: int| 0 <= k < parts.len() implies !wanted(#[trigger] parts[k]) by {
            assert(parts[k].text_at("name"@) != Some("Engine"@));
        }
        lists::lemma_first_nowhere(parts, wanted);
    }
}

/// Two texts beside each other; where one is empty, the other alone.
pub open spec fn beside(a: Seq<char>, sep: Seq<char>, b: Seq<char>) -> Seq<char> {
    if a.len() == 0 {
        b
    } else if b.len() == 0 {
        a
    } else {
        a + sep + b
    }
}

proof fn lemma_three_joined(a: Seq<char>, b: Seq<char>, c: Seq<char>, sep: Seq<char>)
    ensures
        joined_filled(seq![a, b, c], sep) == beside(beside(a, sep, b), sep, c),
{
    let keep = |p: Seq<char>| p.len() > 0;
    let none = Seq::<Seq<char>>::empty();
    lists::lemma_filter_none(keep);
    lists::lemma_filter_push(none, a, keep);
    lists::lemma_filter_push(none.push(a), b, keep);
    lists::lemma_filter_push(none.push(a).push(b), c, keep);
    assert(none.push(a).push(b).push(c) =~= seq![a, b, c]);
    text::law_joined(none, a, sep);
    text::law_joined(none, b, sep);
    text::law_joined(none, c, sep);
    assert(none.push(a) =~= seq![a]);
    assert(none.push(b) =~= seq![b]);
    assert(none.push(c) =~= seq![c]);
    text::law_joined(seq![a], b, sep);
    text::law_joined(seq![a], c, sep);
    text::law_joined(seq![b], c, sep);
    text::law_joined(seq![a].push(b), c, sep);
    assert(joined_filled(seq![a, b, c], sep) =~= beside(beside(a, sep, b), sep, c));
}

/// The capacity of an engine as it is shown, given what it is said to be.
pub proof fn law_capacity(engine: Doc, value: Seq<char>, unit: Seq<char>, rest: Seq<char>)
    requires
        first_capacity(engine).text_in("value"@) == value,
        first_capacity(engine).text_in("unit"@) == unit,
    ensures
        value.len() == 0 ==> capacity(engine).len() == 0,
        value.len() > 0 && unit == "L"@ ==> capacity(engine) == value + seq![' ', 'L'],
        value.len() > 0 && unit == "liter"@ + rest ==> capacity(engine) == value + seq![' ', 'L'],
        value.len() > 0 && unit.len() == 0 ==> capacity(engine) == value,
        value.len() > 0 && unit.len() > 0 && unit != "L"@ && !text::starts_with_spec(
            unit,
            "liter"@,
        ) ==> capacity(engine) == value + seq![' '] + unit,
{
    reveal_strlit(" L");
    reveal_strlit(" ");
    reveal_strlit("L");
    reveal_strlit("liter");
    assert(" L"@ =~= seq![' ', 'L']);
    assert(" "@ =~= seq![' ']);
    text::law_prefix("liter"@, rest);
}

/// The capacity is read from the first of a list, or from the member `0`.
pub proof fn law_first_capacity(engine: Doc, v: Seq<Doc>, d: Doc)
    ensures
        engine.items_at("capacities"@) == Some(v) && v.len() > 0 ==> first_capacity(engine) == v[0],
        engine.has("capacities"@) && engine.get("capacities"@)->0.get("0"@) == Some(d)
            ==> first_capacity(engine) == d,
        !engine.has("capacities"@) ==> first_capacity(engine) == Doc::Null,
        engine.items_at("capacities"@) == Some(Seq::<Doc>::empty()) ==> first_capacity(engine)
            == Doc::Null,
        engine.has("capacities"@) && !(engine.get("capacities"@)->0 is Array) && !engine.get(
            "capacities"@,
        )->0.has("0"@) ==> first_capacity(engine) == Doc::Null,
{
}

/// The summary of an engine: its code, its power in two units and its speed,
/// and its capacity, with a dot between them. What is not known is left out.
pub proof fn law_summary(engine: Doc)
    ensures
        ({
            let hp = match engine.whole_at("hp"@) {
                Some(n) => digits::decimal(n as nat) + seq!['H', 'P'],
                None => Seq::<char>::empty(),
            };
            let kw = match engine.whole_at("kw"@) {
                Some(n) => digits::decimal(n as nat) + seq!['K', 'W'],
                None => Seq::<char>::empty(),
            };
            let rpm = match engine.whole_at("rpm"@) {
                Some(n) => digits::decimal(n as nat) + seq!['R', 'P', 'M'],
                None => Seq::<char>::empty(),
            };
            let comma = seq![',', ' '];
            let dot = seq![' ', '\u{b7}', ' '];
            summary_of(engine) == beside(
                beside(
                    engine.text_in("code"@),
                    dot,
                    beside(beside(hp, comma, kw), comma, rpm),
                ),
                dot,
                capacity(engine),
            )
        }),
{
    reveal_strlit("HP");
    reveal_strlit("KW");
    reveal_strlit("RPM");
    reveal_strlit(", ");
    assert("HP"@ =~= seq!['H', 'P']);
    assert("KW"@ =~= seq!['K', 'W']);
    assert("RPM"@ =~= seq!['R', 'P', 'M']);
    assert(", "@ =~= seq![',', ' ']);
    let hp = measure(engine, "hp"@, "HP"@);
    let kw = measure(engine, "kw"@, "KW"@);
    let rpm = measure(engine, "rpm"@, "RPM"@);
    lemma_three_joined(hp, kw, rpm, ", "@);
    lemma_three_joined(
        engine.text_in("code"@),
        joined_filled(seq![hp, kw, rpm], ", "@),
        capacity(engine),
        middle_dot(),
    );
}

/// The summary of a car is that of its engine, and empty where it has none.
pub proof fn law_engine_summary(d: Doc)
    ensures
        engine_of(d) matches Some(e) ==> engine_summary(d) == summary_of(e),
        engine_of(d) is None ==> engine_summary(d) == Seq::<char>::empty(),
{
}

/// A displacement in litres is one or two digits, a dot and a digit, from 0.5
/// to 10.0. What else is found is none.
pub proof fn law_displacement(m: Seq<char>, e: Seq<char>)
    ensures
        displacement_from(Err(e)) == Seq::<char>::empty(),
        displacement_from(Ok(None)) == Seq::<char>::empty(),
        displacement_from(Ok(Some(m))) == m || displacement_from(Ok(Some(m))) == Seq::<
            char,
        >::empty(),
        m.len() == 3 && '0' <= m[0] <= '9' && m[1] == '.' && '0' <= m[2] <= '9' ==> (
        displacement_from(Ok(Some(m))) == m <==> m[0] != '0' || m[2] >= '5'),
        m.len() == 4 && '0' <= m[0] <= '9' && '0' <= m[1] <= '9' && m[2] == '.' && '0' <= m[3] <= '9'
            ==> (displacement_from(Ok(Some(m))) == m <==> (m[0] == '0' && (m[1] != '0' || m[3]
            >= '5')) || (m[0] == '1' && m[1] == '0' && m[3] == '0')),
        m.len() > 0 && displacement_from(Ok(Some(m))) == m ==> (m.len() == 3 || m.len() == 4) && m[
        m.len() - 2] == '.' && forall|k: int|
            0 <= k < m.len() && k != m.len() - 2 ==> '0' <= #[trigger] m[k] <= '9',
{
    if m.len() == 3 || m.len() == 4 {
        let ds = m.take(m.len() - 2).push(m.last());
        reveal_with_fuel(digits::value_of, 4);
        if m.len() == 3 {
            assert(ds =~= seq![m[0], m[2]]);
            assert(seq![m[0], m[2]].drop_last() =~= seq![m[0]]);
            assert(seq![m[0]].drop_last() =~= Seq::<char>::empty());
        } else {
            assert(ds =~= seq![m[0], m[1], m[3]]);
            assert(seq![m[0], m[1], m[3]].drop_last() =~= seq![m[0], m[1]]);
            assert(seq![m[0], m[1]].drop_last() =~= seq![m[0]]);
            assert(seq![m[0]].drop_last() =~= Seq::<char>::empty());
        }
        if is_displacement(m) {
            assert forall|k: int| 0 <= k < m.len() && k != m.len() - 2 implies '0' <= #[trigger] m[k]
                <= '9' by {
                if k < m.len() - 2 {
                    assert(ds[k] == m[k]);
                } else {
                    assert(ds[ds.len() - 1] == m[k]);
                }
            }
        }
        if forall|k: int| 0 <= k < m.len() && k != m.len() - 2 ==> '0' <= #[trigger] m[k] <= '9' {
            assert(digits::all_digits(ds));
        }
    }
}

/// A displacement is looked for in the name without the space around it; a
/// name that is blank has none.
pub proof fn law_displacement_of(name: Seq<char>)
    ensures
        text::trimmed(name).len() == 0 ==> displacement_of(name) == Seq::<char>::empty(),
        text::trimmed(name).len() > 0 ==> displacement_of(name) == displacement_from(
            outside::first_group("\\b(\\d{1,2}\\.\\d)\\b"@, text::trimmed(name)),
        ),
{
}

/// A variant is named by its own name.
pub proof fn law_variant_name(car: Doc, variant: Doc)
    ensures
        car.get("mpmoil_variant"@) == Some(variant) ==> variant_name(car) == variant.text_in(
            "name"@,
        ),
        !car.has("mpmoil_variant"@) ==> variant_name(car) == Seq::<char>::empty(),
{
}

/// What is derived for a car is written where it differs from what the car
/// says, and then the car says it; nothing else of the car changes.
pub proof fn law_derived(car: Doc, summary: Seq<char>, displacement: Seq<char>, k: Seq<char>)
    requires
        car.is_object(),
    ensures
        derived_write(car, summary, displacement) is None <==> car.text_in("engine_summary"@)
            == summary && car.text_in("displacement"@) == displacement,
        derived_write(car, summary, displacement) matches Some(d) ==> d.text_at("engine_summary"@)
            == Some(summary) && d.text_at("displacement"@) == Some(displacement) && (k
            != "engine_summary"@ && k != "displacement"@ ==> d.get(k) == car.get(k)),
{
    lemma_engine_names();
}

} // verus!
