//! Documents: numbers, texts, lists and objects, and what they say.
use crate::text;
use vstd::prelude::*;

verus! {

/// A number as it stands in a document.
#[derive(Clone, Copy, Debug, PartialEq, Eq, Structural)]
pub enum Num {
    PosInt(u64),
    NegInt(i64),
    /// A number with a fraction or an exponent: its binary form, and its
    /// integer part, held to the range of `i64`.
    Float { bits: u64, trunc: i64 },
}

/// A document. The members of an object are a list; the first member with a
/// name is the one that counts.
#[derive(Debug)]
pub enum Json {
    Null,
    Bool(bool),
    Number(Num),
    Str(String),
    Array(Vec<Json>),
    Object(Vec<(String, Json)>),
}

/// What a document says.
pub enum Doc {
    Null,
    Bool(bool),
    Number(Num),
    Str(Seq<char>),
    Array(Seq<Doc>),
    Object(Map<Seq<char>, Doc>),
}

/// The place of the first member named `k`, or the number of members.
pub open spec fn place_of(ms: Seq<(String, Json)>, k: Seq<char>) -> int
    decreases ms.len(),
{
    if ms.len() == 0 {
        0
    } else if ms[0].0@ == k {
        0
    } else {
        1 + place_of(ms.drop_first(), k)
    }
}

pub open spec fn doc_of(j: Json) -> Doc
    decreases j,
{
    match j {
        Json::Null => Doc::Null,
        Json::Bool(b) => Doc::Bool(b),
        Json::Number(n) => Doc::Number(n),
        Json::Str(s) => Doc::Str(s@),
        Json::Array(v) => Doc::Array(
            Seq::new(v@.len(), |i: int| if 0 <= i < v@.len() { doc_of(v@[i]) } else { Doc::Null }),
        ),
        Json::Object(ms) => Doc::Object(
            Map::new(
                |k: Seq<char>| 0 <= place_of(ms@, k) < ms@.len(),
                |k: Seq<char>| if 0 <= place_of(ms@, k) < ms@.len() { doc_of(ms@[place_of(ms@, k)].1) } else { Doc::Null },
            ),
        ),
    }
}

impl View for Json {
    type V = Doc;

    open spec fn view(&self) -> Doc {
        doc_of(*self)
    }
}

/// What the documents of a list say.
pub open spec fn docs(v: Seq<Json>) -> Seq<Doc> {
    v.map_values(|j: Json| j@)
}

pub open spec fn opt_doc(o: Option<&Json>) -> Option<Doc> {
    match o {
        Some(j) => Some(j@),
        None => None,
    }
}

pub open spec fn opt_json(o: Option<Json>) -> Option<Doc> {
    match o {
        Some(j) => Some(j@),
        None => None,
    }
}

pub open spec fn opt_str(o: Option<&str>) -> Option<Seq<char>> {
    match o {
        Some(s) => Some(s@),
        None => None,
    }
}

/// A whole number as a document holds it.
pub open spec fn num_of(n: int) -> Num {
    if n >= 0 {
        Num::PosInt(n as u64)
    } else {
        Num::NegInt(n as i64)
    }
}

impl Doc {
    /// The member named `k`.
    pub open spec fn get(self, k: Seq<char>) -> Option<Doc> {
        match self {
            Doc::Object(m) if m.dom().contains(k) => Some(m[k]),
            _ => None,
        }
    }

    pub open spec fn has(self, k: Seq<char>) -> bool {
        self.get(k) is Some
    }

    pub open spec fn is_object(self) -> bool {
        self is Object
    }

    pub open spec fn text(self) -> Option<Seq<char>> {
        match self {
            Doc::Str(s) => Some(s),
            _ => None,
        }
    }

    pub open spec fn truth(self) -> Option<bool> {
        match self {
            Doc::Bool(b) => Some(b),
            _ => None,
        }
    }

    /// The number, where it is a whole number from zero up.
    pub open spec fn whole(self) -> Option<u64> {
        match self {
            Doc::Number(Num::PosInt(n)) => Some(n),
            _ => None,
        }
    }

    /// The number, where it is a whole number that fits `i64`.
    pub open spec fn integer(self) -> Option<i64> {
        match self {
            Doc::Number(Num::PosInt(n)) if n <= i64::MAX => Some(n as i64),
            Doc::Number(Num::NegInt(n)) => Some(n),
            _ => None,
        }
    }

    /// The number without its fraction, held to the range of `i64`.
    pub open spec fn rounded(self) -> Option<i64> {
        match self {
            Doc::Number(Num::PosInt(n)) => Some(
                if n <= i64::MAX {
                    n as i64
                } else {
                    i64::MAX
                },
            ),
            Doc::Number(Num::NegInt(n)) => Some(n),
            Doc::Number(Num::Float { bits, trunc }) => Some(trunc),
            _ => None,
        }
    }

    pub open spec fn items(self) -> Option<Seq<Doc>> {
        match self {
            Doc::Array(v) => Some(v),
            _ => None,
        }
    }

    pub open spec fn text_at(self, k: Seq<char>) -> Option<Seq<char>> {
        match self.get(k) {
            Some(d) => d.text(),
            None => None,
        }
    }

    pub open spec fn text_or(self, k: Seq<char>, other: Seq<char>) -> Seq<char> {
        match self.text_at(k) {
            Some(s) => s,
            None => other,
        }
    }

    /// The text of the member, or no text.
    pub open spec fn text_in(self, k: Seq<char>) -> Seq<char> {
        self.text_or(k, Seq::<char>::empty())
    }

    pub open spec fn whole_at(self, k: Seq<char>) -> Option<u64> {
        match self.get(k) {
            Some(d) => d.whole(),
            None => None,
        }
    }

    pub open spec fn whole_or(self, k: Seq<char>, other: u64) -> u64 {
        match self.whole_at(k) {
            Some(n) => n,
            None => other,
        }
    }

    /// Whether the member is there and is true.
    pub open spec fn flag_at(self, k: Seq<char>) -> bool {
        match self.get(k) {
            Some(d) => d.truth() == Some(true),
            None => false,
        }
    }

    pub open spec fn items_at(self, k: Seq<char>) -> Option<Seq<Doc>> {
        match self.get(k) {
            Some(d) => d.items(),
            None => None,
        }
    }

    /// The object with the member `k` set; what is no object stays as it is.
    pub open spec fn with(self, k: Seq<char>, v: Doc) -> Doc {
        match self {
            Doc::Object(m) => Doc::Object(m.insert(k, v)),
            other => other,
        }
    }

    /// The object without the member `k`; what is no object stays as it is.
    pub open spec fn without(self, k: Seq<char>) -> Doc {
        match self {
            Doc::Object(m) => Doc::Object(m.remove(k)),
            other => other,
        }
    }

    /// The object with the members of another set; what is no object stays
    /// as it is, and what is no object sets nothing.
    pub open spec fn overlaid(self, over: Doc) -> Doc {
        match (self, over) {
            (Doc::Object(m), Doc::Object(n)) => Doc::Object(m.union_prefer_right(n)),
            (other, _) => other,
        }
    }

    /// The object without members.
    pub open spec fn object() -> Doc {
        Doc::Object(Map::empty())
    }

    pub open spec fn num(n: int) -> Doc {
        Doc::Number(num_of(n))
    }

    /// A text, or null where there is none.
    pub open spec fn maybe_text(o: Option<Seq<char>>) -> Doc {
        match o {
            Some(s) => Doc::Str(s),
            None => Doc::Null,
        }
    }

    /// The object with the member `k` of another document, where it has none
    /// of its own.
    pub open spec fn keeping(self, from: Doc, k: Seq<char>) -> Doc {
        match from.get(k) {
            Some(v) if !self.has(k) => self.with(k, v),
            _ => self,
        }
    }
}

proof fn lemma_place(ms: Seq<(String, Json)>, k: Seq<char>)
    ensures
        0 <= place_of(ms, k) <= ms.len(),
        place_of(ms, k) < ms.len() ==> ms[place_of(ms, k)].0@ == k,
        forall|i: int| 0 <= i < place_of(ms, k) ==> (#[trigger] ms[i]).0@ != k,
    decreases ms.len(),
{
    if ms.len() > 0 && ms[0].0@ != k {
        let rest = ms.drop_first();
        lemma_place(rest, k);
        assert forall|i: int| 0 <= i < place_of(ms, k) implies (#[trigger] ms[i]).0@ != k by {
            if i > 0 {
                assert(rest[i - 1] == ms[i]);
            }
        }
    }
}

proof fn lemma_place_is(ms: Seq<(String, Json)>, k: Seq<char>, p: int)
    requires
        0 <= p <= ms.len(),
        p < ms.len() ==> ms[p].0@ == k,
        forall|i: int| 0 <= i < p ==> (#[trigger] ms[i]).0@ != k,
    ensures
        place_of(ms, k) == p,
{
    lemma_place(ms, k);
    let q = place_of(ms, k);
    if q < p {
        assert(ms[q].0@ != k);
    }
    if p < q {
        assert(ms[p].0@ != k);
    }
}

pub proof fn lemma_array(v: Vec<Json>)
    ensures
        doc_of(Json::Array(v)) == Doc::Array(docs(v@)),
{
    assert(doc_of(Json::Array(v))->Array_0 =~= docs(v@));
}

fn find(ms: &Vec<(String, Json)>, k: &str) -> (r: usize)
    ensures
        r == place_of(ms@, k@),
{
    let mut i: usize = 0;
    while i < ms.len()
        invariant
            i <= ms@.len(),
            forall|j: int| 0 <= j < i ==> (#[trigger] ms@[j]).0@ != k@,
        decreases ms@.len() - i,
    {
        if text::same(ms[i].0.as_str(), k) {
            proof {
                lemma_place_is(ms@, k@, i as int);
            }
            return i;
        }
        i = i + 1;
    }
    proof {
        lemma_place_is(ms@, k@, i as int);
    }
    i
}

fn set_member(ms: Vec<(String, Json)>, k: &str, v: Json) -> (r: Vec<(String, Json)>)
    ensures
        doc_of(Json::Object(r)) == doc_of(Json::Object(ms)).with(k@, v@),
{
    let mut out = ms;
    let p = find(&out, k);
    if p < out.len() {
        out.set(p, (k.to_owned(), v));
    } else {
        out.push((k.to_owned(), v));
    }
    proof {
        let before = doc_of(Json::Object(ms))->Object_0;
        let after = doc_of(Json::Object(out))->Object_0;
        assert forall|key: Seq<char>|
            after.dom().contains(key) == #[trigger] before.insert(k@, v@).dom().contains(key) && (
            after.dom().contains(key) ==> after[key] == before.insert(k@, v@)[key]) by {
            lemma_place(ms@, key);
            lemma_place(ms@, k@);
            let q = place_of(ms@, key);
            if key == k@ {
                lemma_place_is(out@, key, p as int);
            } else if q < ms@.len() {
                lemma_place_is(out@, key, q);
            } else {
                assert forall|i: int| 0 <= i < out@.len() implies (#[trigger] out@[i]).0@ != key by {
                    if i < ms@.len() {
                        assert(ms@[i].0@ != key);
                    }
                }
                lemma_place_is(out@, key, out@.len() as int);
            }
        }
        assert(after =~= before.insert(k@, v@));
    }
    out
}

fn drop_member(ms: Vec<(String, Json)>, k: &str) -> (r: Vec<(String, Json)>)
    ensures
        doc_of(Json::Object(r)) == doc_of(Json::Object(ms)).without(k@),
{
    let mut out = ms;
    let mut p = find(&out, k);
    while p < out.len()
        invariant
            p == place_of(out@, k@),
            doc_of(Json::Object(out)).without(k@) == doc_of(Json::Object(ms)).without(k@),
        decreases out@.len(),
    {
        let ghost earlier = out;
        let _ = out.remove(p);
        proof {
            let before = doc_of(Json::Object(earlier))->Object_0.remove(k@);
            let after = doc_of(Json::Object(out))->Object_0.remove(k@);
            assert forall|key: Seq<char>|
                after.dom().contains(key) == #[trigger] before.dom().contains(key) && (
                after.dom().contains(key) ==> after[key] == before[key]) by {
                if key != k@ {
                    lemma_place(earlier@, key);
                    lemma_place(earlier@, k@);
                    let q = place_of(earlier@, key);
                    if q < p {
                        lemma_place_is(out@, key, q);
                    } else {
                        assert forall|i: int| 0 <= i < q - 1 implies (#[trigger] out@[i]).0@ != key by {
                            if i < p {
                                assert(out@[i] == earlier@[i]);
                            } else {
                                assert(out@[i] == earlier@[i + 1]);
                            }
                        }
                        lemma_place_is(out@, key, q - 1);
                    }
                }
            }
            assert(after =~= before);
        }
        p = find(&out, k);
    }
    proof {
        lemma_place(out@, k@);
        let m = doc_of(Json::Object(out))->Object_0;
        assert(m.remove(k@) =~= m);
    }
    out
}

/// What the members of an object say.
spec fn members(ms: Seq<(String, Json)>) -> Map<Seq<char>, Doc> {
    Map::new(|k: Seq<char>| 0 <= place_of(ms, k) < ms.len(), |k: Seq<char>| ms[place_of(ms, k)].1@)
}

proof fn lemma_members(v: Vec<(String, Json)>)
    ensures
        doc_of(Json::Object(v)) == Doc::Object(members(v@)),
{
    assert(doc_of(Json::Object(v))->Object_0 =~= members(v@));
}

proof fn lemma_members_first(ms: Seq<(String, Json)>)
    requires
        ms.len() > 0,
    ensures
        members(ms) == members(ms.drop_first()).insert(ms[0].0@, ms[0].1@),
{
    let rest = ms.drop_first();
    assert forall|k: Seq<char>|
        members(ms).dom().contains(k) == #[trigger] members(rest).insert(
            ms[0].0@,
            ms[0].1@,
        ).dom().contains(k) && (members(ms).dom().contains(k) ==> members(ms)[k] == members(rest).insert(
            ms[0].0@,
            ms[0].1@,
        )[k]) by {
        lemma_place(ms, k);
        lemma_place(rest, k);
        if ms[0].0@ != k && place_of(rest, k) < rest.len() {
            assert(ms[place_of(ms, k)] == rest[place_of(rest, k)]);
        }
    }
    assert(members(ms) =~= members(rest).insert(ms[0].0@, ms[0].1@));
}

impl Clone for Json {
    fn clone(&self) -> (r: Self)
        ensures
            r@ == self@,
        decreases self,
    {
        match self {
            Json::Null => Json::Null,
            Json::Bool(b) => Json::Bool(*b),
            Json::Number(n) => Json::Number(*n),
            Json::Str(s) => Json::Str(s.clone()),
            Json::Array(v) => {
                let mut out: Vec<Json> = Vec::new();
                let mut i: usize = 0;
                while i < v.len()
                    invariant
                        i <= v@.len(),
                        *self == Json::Array(*v),
                        docs(out@) =~= docs(v@).take(i as int),
                    decreases v@.len() - i,
                {
                    assert(decreases_to!(*self => self->Array_0));
                    assert(decreases_to!(*v => v@));
                    assert(decreases_to!(v@ => v@[i as int]));
                    let ghost before = out@;
                    let copy = v[i].clone();
                    assert(copy@ == v@[i as int]@);
                    out.push(copy);
                    assert(docs(out@) =~= docs(before).push(copy@));
                    i = i + 1;
                }
                proof {
                    lemma_array(*v);
                    lemma_array(out);
                    assert(docs(out@) =~= docs(v@));
                }
                Json::Array(out)
            },
            Json::Object(ms) => {
                let mut out: Vec<(String, Json)> = Vec::new();
                let mut i: usize = 0;
                while i < ms.len()
                    invariant
                        i <= ms@.len(),
                        *self == Json::Object(*ms),
                        out@.len() == i,
                        forall|j: int| 0 <= j < i ==> (#[trigger] out@[j]).0@ == ms@[j].0@ && out@[j].1@ == ms@[j].1@,
                    decreases ms@.len() - i,
                {
                    assert(decreases_to!(*self => self->Object_0));
                    assert(decreases_to!(*ms => ms@));
                    assert(decreases_to!(ms@ => ms@[i as int]));
                    assert(decreases_to!(ms@[i as int] => ms@[i as int].1));
                    out.push((ms[i].0.clone(), ms[i].1.clone()));
                    i = i + 1;
                }
                proof {
                    lemma_members(*ms);
                    lemma_members(out);
                    assert forall|k: Seq<char>| place_of(out@, k) == #[trigger] place_of(ms@, k) by {
                        lemma_place(ms@, k);
                        lemma_place_is(out@, k, place_of(ms@, k));
                    }
                    assert(members(out@) =~= members(ms@));
                }
                Json::Object(out)
            },
        }
    }
}

/// The documents of a list, once more.
pub fn clone_all(v: &Vec<Json>) -> (r: Vec<Json>)
    ensures
        docs(r@) == docs(v@),
{
    let mut out: Vec<Json> = Vec::new();
    let mut i: usize = 0;
    while i < v.len()
        invariant
            i <= v@.len(),
            docs(out@) =~= docs(v@).take(i as int),
        decreases v@.len() - i,
    {
        let ghost before = out@;
        let copy = v[i].clone();
        assert(copy@ == v@[i as int]@);
        out.push(copy);
        assert(docs(out@) =~= docs(before).push(copy@));
        i = i + 1;
    }
    assert(docs(out@) =~= docs(v@));
    out
}

impl Json {
    /// An object without members.
    pub fn object() -> (r: Json)
        ensures
            r@ == Doc::object(),
    {
        let r = Json::Object(Vec::new());
        assert(r@->Object_0 =~= Map::empty());
        r
    }

    pub fn list(v: Vec<Json>) -> (r: Json)
        ensures
            r@ == Doc::Array(docs(v@)),
    {
        proof {
            lemma_array(v);
        }
        Json::Array(v)
    }

    pub fn of_text(s: &str) -> (r: Json)
        ensures
            r@ == Doc::Str(s@),
    {
        Json::Str(s.to_owned())
    }

    pub fn of_u64(n: u64) -> (r: Json)
        ensures
            r@ == Doc::num(n as int),
    {
        Json::Number(Num::PosInt(n))
    }

    pub fn maybe_text(o: Option<&str>) -> (r: Json)
        ensures
            r@ == Doc::maybe_text(opt_str(o)),
    {
        match o {
            Some(s) => Json::of_text(s),
            None => Json::Null,
        }
    }

    pub fn of_i64(n: i64) -> (r: Json)
        ensures
            r@ == Doc::num(n as int),
    {
        if n >= 0 {
            Json::Number(Num::PosInt(n as u64))
        } else {
            Json::Number(Num::NegInt(n))
        }
    }

    pub fn is_object(&self) -> (r: bool)
        ensures
            r == self@.is_object(),
    {
        match self {
            Json::Object(_) => true,
            _ => false,
        }
    }

    pub fn get(&self, k: &str) -> (r: Option<&Json>)
        ensures
            opt_doc(r) == self@.get(k@),
    {
        match self {
            Json::Object(ms) => {
                let p = find(ms, k);
                proof {
                    lemma_place(ms@, k@);
                }
                if p < ms.len() {
                    Some(&ms[p].1)
                } else {
                    None
                }
            },
            _ => None,
        }
    }

    /// The names of the members of an object.
    pub fn keys(&self) -> (r: Vec<String>)
        ensures
            forall|k: Seq<char>|
                self@.has(k) <==> exists|i: int|
                    0 <= i < text::texts(r@).len() && #[trigger] text::texts(r@)[i] == k,
    {
        let mut out: Vec<String> = Vec::new();
        match self {
            Json::Object(ms) => {
                let mut i: usize = 0;
                while i < ms.len()
                    invariant
                        i <= ms@.len(),
                        out@.len() == i,
                        forall|j: int| 0 <= j < i ==> (#[trigger] out@[j])@ == ms@[j].0@,
                    decreases ms@.len() - i,
                {
                    out.push(ms[i].0.clone());
                    i = i + 1;
                }
                assert forall|k: Seq<char>|
                    self@.has(k) <==> exists|i: int|
                        0 <= i < text::texts(out@).len() && #[trigger] text::texts(out@)[i] == k by {
                    lemma_place(ms@, k);
                    let p = place_of(ms@, k);
                    if self@.has(k) {
                        assert(text::texts(out@)[p] == k);
                    }
                    if exists|i: int|
                        0 <= i < text::texts(out@).len() && #[trigger] text::texts(out@)[i] == k {
                        let i = choose|i: int|
                            0 <= i < text::texts(out@).len() && #[trigger] text::texts(out@)[i] == k;
                        assert(ms@[i].0@ == k);
                        assert(p < ms@.len());
                    }
                }
            },
            _ => {
                assert(text::texts(out@).len() == 0);
            },
        }
        out
    }

    pub fn has(&self, k: &str) -> (r: bool)
        ensures
            r == self@.has(k@),
    {
        self.get(k).is_some()
    }

    pub fn text(&self) -> (r: Option<&str>)
        ensures
            opt_str(r) == self@.text(),
    {
        match self {
            Json::Str(s) => Some(s.as_str()),
            _ => None,
        }
    }

    pub fn truth(&self) -> (r: Option<bool>)
        ensures
            r == self@.truth(),
    {
        match self {
            Json::Bool(b) => Some(*b),
            _ => None,
        }
    }

    pub fn whole(&self) -> (r: Option<u64>)
        ensures
            r == self@.whole(),
    {
        match self {
            Json::Number(Num::PosInt(n)) => Some(*n),
            _ => None,
        }
    }

    pub fn integer(&self) -> (r: Option<i64>)
        ensures
            r == self@.integer(),
    {
        match self {
            Json::Number(Num::PosInt(n)) => {
                if *n <= i64::MAX as u64 {
                    Some(*n as i64)
                } else {
                    None
                }
            },
            Json::Number(Num::NegInt(n)) => Some(*n),
            _ => None,
        }
    }

    pub fn rounded(&self) -> (r: Option<i64>)
        ensures
            r == self@.rounded(),
    {
        match self {
            Json::Number(Num::PosInt(n)) => {
                if *n <= i64::MAX as u64 {
                    Some(*n as i64)
                } else {
                    Some(i64::MAX)
                }
            },
            Json::Number(Num::NegInt(n)) => Some(*n),
            Json::Number(Num::Float { bits: _, trunc }) => Some(*trunc),
            _ => None,
        }
    }

    pub fn items(&self) -> (r: Option<&Vec<Json>>)
        ensures
            match r {
                Some(v) => self@.items() == Some(docs(v@)) && *self == Json::Array(*v),
                None => self@.items() is None,
            },
    {
        match self {
            Json::Array(v) => {
                proof {
                    lemma_array(*v);
                }
                Some(v)
            },
            _ => None,
        }
    }

    pub fn text_at(&self, k: &str) -> (r: Option<&str>)
        ensures
            opt_str(r) == self@.text_at(k@),
    {
        match self.get(k) {
            Some(j) => j.text(),
            None => None,
        }
    }

    pub fn text_or(&self, k: &str, other: &str) -> (r: String)
        ensures
            r@ == self@.text_or(k@, other@),
    {
        match self.text_at(k) {
            Some(s) => s.to_owned(),
            None => other.to_owned(),
        }
    }

    pub fn text_in(&self, k: &str) -> (r: String)
        ensures
            r@ == self@.text_in(k@),
    {
        match self.text_at(k) {
            Some(s) => s.to_owned(),
            None => String::new(),
        }
    }

    pub fn whole_at(&self, k: &str) -> (r: Option<u64>)
        ensures
            r == self@.whole_at(k@),
    {
        match self.get(k) {
            Some(j) => j.whole(),
            None => None,
        }
    }

    pub fn whole_or(&self, k: &str, other: u64) -> (r: u64)
        ensures
            r == self@.whole_or(k@, other),
    {
        match self.whole_at(k) {
            Some(n) => n,
            None => other,
        }
    }

    pub fn flag_at(&self, k: &str) -> (r: bool)
        ensures
            r == self@.flag_at(k@),
    {
        match self.get(k) {
            Some(j) => match j.truth() {
                Some(b) => b,
                None => false,
            },
            None => false,
        }
    }

    pub fn items_at(&self, k: &str) -> (r: Option<&Vec<Json>>)
        ensures
            match r {
                Some(v) => self@.items_at(k@) == Some(docs(v@)),
                None => self@.items_at(k@) is None,
            },
    {
        match self.get(k) {
            Some(j) => j.items(),
            None => None,
        }
    }

    /// The object with the member `k` set.
    pub fn with(self, k: &str, v: Json) -> (r: Json)
        ensures
            r@ == self@.with(k@, v@),
    {
        match self {
            Json::Object(ms) => Json::Object(set_member(ms, k, v)),
            other => other,
        }
    }

    pub fn with_text(self, k: &str, v: &str) -> (r: Json)
        ensures
            r@ == self@.with(k@, Doc::Str(v@)),
    {
        self.with(k, Json::of_text(v))
    }

    /// The object without the member `k`.
    pub fn without(self, k: &str) -> (r: Json)
        ensures
            r@ == self@.without(k@),
    {
        match self {
            Json::Object(ms) => Json::Object(drop_member(ms, k)),
            other => other,
        }
    }

    /// The object with the member `k` of another document, where it has none
    /// of its own.
    pub fn keeping(self, from: &Json, k: &str) -> (r: Json)
        ensures
            r@ == self@.keeping(from@, k@),
    {
        if self.has(k) {
            return self;
        }
        match from.get(k) {
            Some(v) => self.with(k, v.clone()),
            None => self,
        }
    }

    /// The object with the members of another set.
    pub fn overlaid(self, over: &Json) -> (r: Json)
        ensures
            r@ == self@.overlaid(over@),
    {
        if !self.is_object() {
            return self;
        }
        match over {
            Json::Object(ms) => {
                let mut out = self;
                let mut i: usize = ms.len();
                proof {
                    assert(members(ms@.skip(i as int)) =~= Map::empty());
                    assert(self@->Object_0.union_prefer_right(members(ms@.skip(i as int))) =~= self@->Object_0);
                }
                while i > 0
                    invariant
                        i <= ms@.len(),
                        self@ is Object,
                        out@ == Doc::Object(
                            self@->Object_0.union_prefer_right(members(ms@.skip(i as int))),
                        ),
                    decreases i,
                {
                    i = i - 1;
                    proof {
                        let tail = ms@.skip(i as int);
                        lemma_members_first(tail);
                        assert(tail.drop_first() =~= ms@.skip(i + 1));
                        assert(self@->Object_0.union_prefer_right(members(tail)) =~= self@->Object_0.union_prefer_right(
                            members(ms@.skip(i + 1)),
                        ).insert(ms@[i as int].0@, ms@[i as int].1@));
                    }
                    out = out.with(ms[i].0.as_str(), ms[i].1.clone());
                }
                proof {
                    lemma_members(*ms);
                    assert(ms@.skip(0) =~= ms@);
                }
                out
            },
            _ => self,
        }
    }
}

/// What was set is read back, and nothing else changes.
pub proof fn law_with(m: Map<Seq<char>, Doc>, k: Seq<char>, v: Doc, other: Seq<char>)
    ensures
        Doc::Object(m).with(k, v).get(k) == Some(v),
        other != k ==> Doc::Object(m).with(k, v).get(other) == Doc::Object(m).get(other),
        Doc::Object(m).without(k).get(k) is None,
        other != k ==> Doc::Object(m).without(k).get(other) == Doc::Object(m).get(other),
        Doc::Object(m).has(k) <==> m.dom().contains(k),
        m.dom().contains(k) ==> Doc::Object(m).get(k) == Some(m[k]),
{
}

/// What is no object has no members, and setting or taking out members leaves
/// it as it is.
pub proof fn law_no_object(d: Doc, k: Seq<char>, v: Doc)
    requires
        !(d is Object),
    ensures
        d.get(k) is None,
        d.with(k, v) == d,
        d.without(k) == d,
        d.overlaid(v) == d,
        v.overlaid(d) == v,
{
}

/// One object over another: each of its members counts, and the others stay.
pub proof fn law_overlaid(
    m: Map<Seq<char>, Doc>,
    n: Map<Seq<char>, Doc>,
    k: Seq<char>,
)
    ensures
        Doc::Object(n).has(k) ==> Doc::Object(m).overlaid(Doc::Object(n)).get(k) == Doc::Object(
            n,
        ).get(k),
        !Doc::Object(n).has(k) ==> Doc::Object(m).overlaid(Doc::Object(n)).get(k) == Doc::Object(
            m,
        ).get(k),
{
}

/// A member that is kept from another document is there where either had it;
/// the document's own counts.
pub proof fn law_keeping(m: Map<Seq<char>, Doc>, from: Doc, k: Seq<char>, other: Seq<char>)
    ensures
        Doc::Object(m).has(k) ==> Doc::Object(m).keeping(from, k).get(k) == Doc::Object(m).get(k),
        !Doc::Object(m).has(k) ==> Doc::Object(m).keeping(from, k).get(k) == from.get(k),
        other != k ==> Doc::Object(m).keeping(from, k).get(other) == Doc::Object(m).get(other),
{
}

/// What the readings of a value give: its own kind, and nothing for any other.
pub proof fn law_read(s: Seq<char>, v: Seq<Doc>, m: Map<Seq<char>, Doc>, b: bool)
    ensures
        Doc::Str(s).text() == Some(s),
        Doc::Array(v).items() == Some(v),
        Doc::Bool(b).truth() == Some(b),
        forall|d: Doc| !(d is Str) ==> (#[trigger] d.text()) is None,
        forall|d: Doc| !(d is Array) ==> (#[trigger] d.items()) is None,
        forall|d: Doc| !(d is Bool) ==> (#[trigger] d.truth()) is None,
        forall|d: Doc| !(d is Number) ==> (#[trigger] d.whole()) is None,
        forall|d: Doc| !(d is Number) ==> (#[trigger] d.integer()) is None,
        forall|d: Doc| !(d is Number) ==> (#[trigger] d.rounded()) is None,
{
}

/// A whole number is read back as it was written, where it fits the type it is
/// read as.
pub proof fn law_number(n: int)
    requires
        i64::MIN <= n <= u64::MAX,
    ensures
        n >= 0 ==> Doc::num(n).whole() == Some(n as u64),
        n < 0 ==> Doc::num(n).whole() is None,
        n <= i64::MAX ==> Doc::num(n).integer() == Some(n as i64),
        n > i64::MAX ==> Doc::num(n).integer() is None,
        n <= i64::MAX ==> Doc::num(n).rounded() == Some(n as i64),
        n > i64::MAX ==> Doc::num(n).rounded() == Some(i64::MAX),
{
}

/// A number with a fraction is no whole number; without its fraction it is its
/// integer part.
pub proof fn law_fraction(bits: u64, trunc: i64)
    ensures
        Doc::Number(Num::Float { bits, trunc }).whole() is None,
        Doc::Number(Num::Float { bits, trunc }).integer() is None,
        Doc::Number(Num::Float { bits, trunc }).rounded() == Some(trunc),
{
}

/// What is read of a member: what it is, or what stands in for it.
pub proof fn law_member_read(
    d: Doc,
    k: Seq<char>,
    s: Seq<char>,
    n: u64,
    v: Seq<Doc>,
    other: Seq<char>,
    zero: u64,
)
    ensures
        d.text_at(k) == Some(s) <==> d.get(k) == Some(Doc::Str(s)),
        d.whole_at(k) == Some(n) <==> d.get(k) == Some(Doc::Number(Num::PosInt(n))),
        d.items_at(k) == Some(v) <==> d.get(k) == Some(Doc::Array(v)),
        d.flag_at(k) <==> d.get(k) == Some(Doc::Bool(true)),
        d.has(k) <==> d.get(k) is Some,
        d.text_at(k) == Some(s) ==> d.text_or(k, other) == s && d.text_in(k) == s,
        d.text_at(k) is None ==> d.text_or(k, other) == other && d.text_in(k) == Seq::<
            char,
        >::empty(),
        d.whole_at(k) == Some(n) ==> d.whole_or(k, zero) == n,
        d.whole_at(k) is None ==> d.whole_or(k, zero) == zero,
        Doc::maybe_text(Some(s)) == Doc::Str(s),
        Doc::maybe_text(None) == Doc::Null,
{
}

/// What an object says under a name is what its first member of that name
/// says.
pub proof fn law_first_member(ms: Vec<(String, Json)>, k: Seq<char>, i: int)
    ensures
        0 <= i < ms@.len() && ms@[i].0@ == k && (forall|j: int|
            0 <= j < i ==> (#[trigger] ms@[j]).0@ != k) ==> doc_of(Json::Object(ms)).get(k) == Some(
            ms@[i].1@,
        ),
        (forall|j: int| 0 <= j < ms@.len() ==> (#[trigger] ms@[j]).0@ != k) ==> doc_of(
            Json::Object(ms),
        ).get(k) is None,
{
    lemma_place(ms@, k);
    if 0 <= i < ms@.len() && ms@[i].0@ == k && (forall|j: int|
        0 <= j < i ==> (#[trigger] ms@[j]).0@ != k) {
        lemma_place_is(ms@, k, i);
    }
    if forall|j: int| 0 <= j < ms@.len() ==> (#[trigger] ms@[j]).0@ != k {
        lemma_place_is(ms@, k, ms@.len() as int);
    }
}

/// What a document says: a null, a truth, a number and a text for themselves, a
/// list what its items say.
pub proof fn law_says(b: bool, n: Num, s: String, v: Vec<Json>, i: int)
    ensures
        Json::Null@ == Doc::Null,
        Json::Bool(b)@ == Doc::Bool(b),
        Json::Number(n)@ == Doc::Number(n),
        Json::Str(s)@ == Doc::Str(s@),
        Json::Array(v)@ matches Doc::Array(w) && w.len() == v@.len() && (0 <= i < v@.len() ==> w[i]
            == v@[i]@),
{
    lemma_array(v);
}

} // verus!
