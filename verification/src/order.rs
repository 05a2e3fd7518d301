//! Putting lists in order. Items of equal rank keep the order they came in.
use crate::json;
use crate::json::{Doc, Json};
use crate::lists;
use crate::text;
use vstd::prelude::*;

verus! {

/// The list `t` with `x` put in: behind the last item that may stand before
/// it.
pub open spec fn placed<T>(t: Seq<T>, x: T, le: spec_fn(T, T) -> bool) -> Seq<T>
    decreases t.len(),
{
    if t.len() == 0 || le(t.last(), x) {
        t.push(x)
    } else {
        placed(t.drop_last(), x, le).push(t.last())
    }
}

/// The list in order: its items put in one by one.
pub open spec fn ranked<T>(s: Seq<T>, le: spec_fn(T, T) -> bool) -> Seq<T>
    decreases s.len(),
{
    if s.len() == 0 {
        s
    } else {
        placed(ranked(s.drop_last(), le), s.last(), le)
    }
}

/// A way of ordering.
pub trait Ranking<T> {
    /// Whether the first may stand before the second.
    spec fn le(&self) -> spec_fn(T, T) -> bool;

    fn may_precede(&self, a: &T, b: &T) -> (r: bool)
        ensures
            r == self.le()(*a, *b),
    ;
}

proof fn lemma_placed_at<T>(t: Seq<T>, x: T, le: spec_fn(T, T) -> bool, p: int)
    requires
        0 <= p <= t.len(),
        p > 0 ==> le(t[p - 1], x),
        forall|q: int| p <= q < t.len() ==> !le(#[trigger] t[q], x),
    ensures
        placed(t, x, le) == t.insert(p, x),
    decreases t.len(),
{
    if p == t.len() {
        assert(t.insert(p, x) =~= t.push(x));
    } else {
        assert(!le(t.last(), x));
        lemma_placed_at(t.drop_last(), x, le, p);
        assert(t.insert(p, x) =~= t.drop_last().insert(p, x).push(t.last()));
    }
}

proof fn lemma_placed_len<T>(t: Seq<T>, x: T, le: spec_fn(T, T) -> bool)
    ensures
        placed(t, x, le).len() == t.len() + 1,
    decreases t.len(),
{
    if t.len() > 0 && !le(t.last(), x) {
        lemma_placed_len(t.drop_last(), x, le);
    }
}

pub proof fn lemma_ranked_len<T>(s: Seq<T>, le: spec_fn(T, T) -> bool)
    ensures
        ranked(s, le).len() == s.len(),
    decreases s.len(),
{
    if s.len() > 0 {
        lemma_ranked_len(s.drop_last(), le);
        lemma_placed_len(ranked(s.drop_last(), le), s.last(), le);
    }
}

/// The list in order.
pub fn sort<T, R: Ranking<T>>(v: Vec<T>, rank: &R) -> (r: Vec<T>)
    ensures
        r@ == ranked(v@, rank.le()),
{
    let mut out = v;
    let n = out.len();
    let mut i: usize = 0;
    assert(ranked(v@.take(0), rank.le()) + v@.skip(0) =~= v@);
    while i < n
        invariant
            i <= n == v@.len() == out@.len(),
            out@ =~= ranked(v@.take(i as int), rank.le()) + v@.skip(i as int),
        decreases n - i,
    {
        let ghost head = ranked(v@.take(i as int), rank.le());
        proof {
            lemma_ranked_len(v@.take(i as int), rank.le());
        }
        let x = out.remove(i);
        assert(out@ =~= head + v@.skip(i + 1));
        let mut p: usize = i;
        while p > 0 && !rank.may_precede(&out[p - 1], &x)
            invariant
                p <= i,
                i < n,
                head.len() == i,
                out@.len() == n - 1,
                out@ =~= head + v@.skip(i + 1),
                forall|q: int| p <= q < i ==> !rank.le()(#[trigger] head[q], x),
            decreases p,
        {
            assert(out@[p - 1] == head[p - 1]);
            p = p - 1;
        }
        proof {
            if p > 0 {
                assert(out@[p - 1] == head[p - 1]);
            }
            lemma_placed_at(head, x, rank.le(), p as int);
            assert(v@.take(i + 1).drop_last() =~= v@.take(i as int));
            assert(v@.take(i + 1).last() == x);
        }
        out.insert(p, x);
        assert(out@ =~= head.insert(p as int, x) + v@.skip(i + 1));
        i = i + 1;
    }
    assert(v@.take(n as int) =~= v@);
    out
}

proof fn lemma_placed_map<T, U>(
    t: Seq<T>,
    x: T,
    le: spec_fn(T, T) -> bool,
    f: spec_fn(T) -> U,
    lu: spec_fn(U, U) -> bool,
)
    requires
        forall|a: T, b: T| #[trigger] le(a, b) == lu(f(a), f(b)),
    ensures
        placed(t, x, le).map_values(f) == placed(t.map_values(f), f(x), lu),
    decreases t.len(),
{
    if t.len() == 0 || le(t.last(), x) {
        assert(t.push(x).map_values(f) =~= t.map_values(f).push(f(x)));
    } else {
        lemma_placed_map(t.drop_last(), x, le, f, lu);
        assert(t.drop_last().map_values(f) =~= t.map_values(f).drop_last());
        assert(placed(t.drop_last(), x, le).push(t.last()).map_values(f) =~= placed(
            t.drop_last(),
            x,
            le,
        ).map_values(f).push(f(t.last())));
    }
}

/// What the items say is put in order as the items are.
pub proof fn lemma_ranked_map<T, U>(
    s: Seq<T>,
    le: spec_fn(T, T) -> bool,
    f: spec_fn(T) -> U,
    lu: spec_fn(U, U) -> bool,
)
    requires
        forall|a: T, b: T| #[trigger] le(a, b) == lu(f(a), f(b)),
    ensures
        ranked(s, le).map_values(f) == ranked(s.map_values(f), lu),
    decreases s.len(),
{
    if s.len() == 0 {
        assert(s.map_values(f) =~= Seq::<U>::empty());
    } else {
        lemma_ranked_map(s.drop_last(), le, f, lu);
        lemma_placed_map(ranked(s.drop_last(), le), s.last(), le, f, lu);
        assert(s.drop_last().map_values(f) =~= s.map_values(f).drop_last());
    }
}

pub open spec fn total<T>(le: spec_fn(T, T) -> bool) -> bool {
    &&& forall|a: T, b: T| #[trigger] le(a, b) || le(b, a)
    &&& forall|a: T, b: T, c: T| #[trigger] le(a, b) && #[trigger] le(b, c) ==> le(a, c)
}

pub open spec fn stands_in_order<T>(s: Seq<T>, le: spec_fn(T, T) -> bool) -> bool {
    forall|i: int, j: int| 0 <= i < j < s.len() ==> le(#[trigger] s[i], #[trigger] s[j])
}

proof fn lemma_placed_in_order<T>(t: Seq<T>, x: T, le: spec_fn(T, T) -> bool)
    requires
        total(le),
        stands_in_order(t, le),
    ensures
        stands_in_order(placed(t, x, le), le),
        forall|y: T| #[trigger] placed(t, x, le).contains(y) ==> t.contains(y) || y == x,
    decreases t.len(),
{
    let r = placed(t, x, le);
    if t.len() == 0 {
        assert(r =~= seq![x]);
    } else if le(t.last(), x) {
        assert forall|i: int, j: int| 0 <= i < j < r.len() implies le(#[trigger] r[i], #[trigger] r[j]) by {
            if j == t.len() {
                if i < t.len() - 1 {
                    assert(le(t[i], t.last()));
                }
            }
        }
        assert forall|y: T| #[trigger] r.contains(y) implies t.contains(y) || y == x by {
            let k = choose|k: int| 0 <= k < r.len() && r[k] == y;
            if k < t.len() {
                assert(t[k] == y);
            }
        }
    } else {
        let front = t.drop_last();
        lemma_placed_in_order(front, x, le);
        let p = placed(front, x, le);
        assert forall|i: int, j: int| 0 <= i < j < r.len() implies le(#[trigger] r[i], #[trigger] r[j]) by {
            if j == p.len() {
                assert(p.contains(p[i]));
                if front.contains(p[i]) {
                    let k = choose|k: int| 0 <= k < front.len() && front[k] == p[i];
                    assert(t[k] == p[i]);
                    assert(le(t[k], t.last()));
                } else {
                    assert(le(t.last(), x) || le(x, t.last()));
                }
            } else {
                assert(r[i] == p[i] && r[j] == p[j]);
            }
        }
        assert forall|y: T| #[trigger] r.contains(y) implies t.contains(y) || y == x by {
            let k = choose|k: int| 0 <= k < r.len() && r[k] == y;
            if k < p.len() {
                assert(p[k] == y);
                assert(p.contains(y));
                if front.contains(y) {
                    let m = choose|m: int| 0 <= m < front.len() && front[m] == y;
                    assert(t[m] == y);
                }
            } else {
                assert(t.last() == y);
            }
        }
    }
}

/// A list that was put in order stands in order.
pub proof fn law_ranked_in_order<T>(s: Seq<T>, le: spec_fn(T, T) -> bool)
    requires
        total(le),
    ensures
        stands_in_order(ranked(s, le), le),
    decreases s.len(),
{
    if s.len() > 0 {
        law_ranked_in_order(s.drop_last(), le);
        lemma_placed_in_order(ranked(s.drop_last(), le), s.last(), le);
    }
}

proof fn lemma_placed_multiset<T>(t: Seq<T>, x: T, le: spec_fn(T, T) -> bool)
    ensures
        placed(t, x, le).to_multiset() == t.to_multiset().insert(x),
    decreases t.len(),
{
    broadcast use vstd::seq_lib::group_to_multiset_ensures;

    if t.len() == 0 || le(t.last(), x) {
    } else {
        lemma_placed_multiset(t.drop_last(), x, le);
        assert(t =~= t.drop_last().push(t.last()));
        assert(placed(t, x, le).to_multiset() =~= t.to_multiset().insert(x));
    }
}

/// A list that was put in order holds what it held, as often as it held it.
pub proof fn law_ranked_keeps_all<T>(s: Seq<T>, le: spec_fn(T, T) -> bool)
    ensures
        ranked(s, le).to_multiset() == s.to_multiset(),
    decreases s.len(),
{
    broadcast use vstd::seq_lib::group_to_multiset_ensures;

    if s.len() > 0 {
        law_ranked_keeps_all(s.drop_last(), le);
        lemma_placed_multiset(ranked(s.drop_last(), le), s.last(), le);
        assert(s =~= s.drop_last().push(s.last()));
    }
}

proof fn lemma_placed_stable<T>(t: Seq<T>, x: T, le: spec_fn(T, T) -> bool, y: T)
    requires
        total(le),
    ensures
        ({
            let alike = |z: T| le(y, z) && le(z, y);
            placed(t, x, le).filter(alike) == t.push(x).filter(alike)
        }),
    decreases t.len(),
{
    let alike = |z: T| le(y, z) && le(z, y);
    if t.len() > 0 && !le(t.last(), x) {
        let front = t.drop_last();
        lemma_placed_stable(front, x, le, y);
        lists::lemma_filter_push(placed(front, x, le), t.last(), alike);
        lists::lemma_filter_push(front, x, alike);
        lists::lemma_filter_push(t, x, alike);
        lists::lemma_filter_push(front, t.last(), alike);
        assert(t =~= front.push(t.last()));
        assert(!(alike(x) && alike(t.last()))) by {
            if alike(x) && alike(t.last()) {
                assert(le(t.last(), y) && le(y, x));
            }
        }
    }
}

/// Items of equal rank keep the order they came in.
pub proof fn law_ranked_stable<T>(s: Seq<T>, le: spec_fn(T, T) -> bool, y: T)
    requires
        total(le),
    ensures
        ({
            let alike = |z: T| le(y, z) && le(z, y);
            ranked(s, le).filter(alike) == s.filter(alike)
        }),
    decreases s.len(),
{
    let alike = |z: T| le(y, z) && le(z, y);
    if s.len() > 0 {
        let front = s.drop_last();
        law_ranked_stable(front, le, y);
        lemma_placed_stable(ranked(front, le), s.last(), le, y);
        lists::lemma_filter_push(ranked(front, le), s.last(), alike);
        lists::lemma_filter_push(front, s.last(), alike);
        assert(s =~= front.push(s.last()));
    }
}

/// Documents by a number in them, the largest first; a document without it
/// counts as zero.
pub open spec fn newest_first(k: Seq<char>) -> spec_fn(Doc, Doc) -> bool {
    |a: Doc, b: Doc| a.whole_or(k, 0) >= b.whole_or(k, 0)
}

pub struct NewestFirst {
    pub key: String,
}

impl Ranking<Json> for NewestFirst {
    open spec fn le(&self) -> spec_fn(Json, Json) -> bool {
        let key = self.key@;
        |a: Json, b: Json| newest_first(key)(a@, b@)
    }

    fn may_precede(&self, a: &Json, b: &Json) -> (r: bool) {
        a.whole_or(self.key.as_str(), 0) >= b.whole_or(self.key.as_str(), 0)
    }
}

/// The documents by the number `key` in them, the largest first.
pub fn sort_newest_first(v: Vec<Json>, key: &str) -> (r: Vec<Json>)
    ensures
        json::docs(r@) == ranked(json::docs(v@), newest_first(key@)),
{
    let rank = NewestFirst { key: key.to_owned() };
    proof {
        lemma_ranked_map(v@, rank.le(), |j: Json| j@, newest_first(key@));
    }
    sort(v, &rank)
}

/// A list with the newest first: no document stands before a newer one, all
/// are there, and those of one time keep the order they came in.
pub proof fn law_newest_first(s: Seq<Doc>, k: Seq<char>, i: int, j: int, y: Doc)
    requires
        0 <= i < j < s.len(),
    ensures
        ranked(s, newest_first(k)).to_multiset() == s.to_multiset(),
        ranked(s, newest_first(k)).len() == s.len(),
        ranked(s, newest_first(k))[i].whole_or(k, 0) >= ranked(s, newest_first(k))[j].whole_or(
            k,
            0,
        ),
        ranked(s, newest_first(k)).filter(|z: Doc| z.whole_or(k, 0) == y.whole_or(k, 0))
            == s.filter(|z: Doc| z.whole_or(k, 0) == y.whole_or(k, 0)),
{
    let le = newest_first(k);
    law_ranked_keeps_all(s, le);
    law_ranked_in_order(s, le);
    law_ranked_stable(s, le, y);
    lemma_ranked_len(s, le);
    assert(le(ranked(s, le)[i], ranked(s, le)[j]));
    let alike = |z: Doc| le(y, z) && le(z, y);
    assert(alike =~= (|z: Doc| z.whole_or(k, 0) == y.whole_or(k, 0)));
}

/// Documents by a text in them; a document without it counts as empty.
pub open spec fn by_text(k: Seq<char>) -> spec_fn(Doc, Doc) -> bool {
    |a: Doc, b: Doc| text::in_order(a.text_in(k), b.text_in(k))
}

pub struct ByText {
    pub key: String,
}

impl Ranking<Json> for ByText {
    open spec fn le(&self) -> spec_fn(Json, Json) -> bool {
        let key = self.key@;
        |a: Json, b: Json| by_text(key)(a@, b@)
    }

    fn may_precede(&self, a: &Json, b: &Json) -> (r: bool) {
        text::ordered(a.text_in(self.key.as_str()).as_str(), b.text_in(self.key.as_str()).as_str())
    }
}

/// The documents by the text `key` in them.
pub fn sort_by_text(v: Vec<Json>, key: &str) -> (r: Vec<Json>)
    ensures
        json::docs(r@) == ranked(json::docs(v@), by_text(key@)),
{
    let rank = ByText { key: key.to_owned() };
    proof {
        lemma_ranked_map(v@, rank.le(), |j: Json| j@, by_text(key@));
    }
    sort(v, &rank)
}

/// A list by text: no document stands before one whose text is smaller, and
/// all are there.
pub proof fn law_by_text(s: Seq<Doc>, k: Seq<char>, i: int, j: int)
    requires
        0 <= i < j < s.len(),
    ensures
        ranked(s, by_text(k)).to_multiset() == s.to_multiset(),
        ranked(s, by_text(k)).len() == s.len(),
        text::in_order(
            ranked(s, by_text(k))[i].text_in(k),
            ranked(s, by_text(k))[j].text_in(k),
        ),
{
    let le = by_text(k);
    assert forall|a: Doc, b: Doc| #[trigger] le(a, b) || le(b, a) by {
        text::lemma_in_order_total(a.text_in(k), b.text_in(k));
    }
    assert forall|a: Doc, b: Doc, c: Doc| #[trigger] le(a, b) && #[trigger] le(b, c) implies le(
        a,
        c,
    ) by {
        text::lemma_in_order_through(a.text_in(k), b.text_in(k), c.text_in(k));
    }
    law_ranked_keeps_all(s, le);
    law_ranked_in_order(s, le);
    lemma_ranked_len(s, le);
    assert(le(ranked(s, le)[i], ranked(s, le)[j]));
}

/// A list with the newest first holds what the list held, and no document in
/// it stands before a newer one.
pub proof fn law_newest_first_whole(s: Seq<Doc>, k: Seq<char>)
    ensures
        ranked(s, newest_first(k)).len() == s.len(),
        ranked(s, newest_first(k)).to_multiset() == s.to_multiset(),
        forall|i: int, j: int|
            0 <= i < j < s.len() ==> (#[trigger] ranked(s, newest_first(k))[i]).whole_or(k, 0) >= (
            #[trigger] ranked(s, newest_first(k))[j]).whole_or(k, 0),
{
    let le = newest_first(k);
    law_ranked_keeps_all(s, le);
    law_ranked_in_order(s, le);
    lemma_ranked_len(s, le);
    let r = ranked(s, le);
    assert forall|i: int, j: int| 0 <= i < j < s.len() implies (#[trigger] r[i]).whole_or(k, 0) >= (
    #[trigger] r[j]).whole_or(k, 0) by {
        assert(le(r[i], r[j]));
    }
}

/// A list by text holds what the list held, and no document in it stands
/// before one whose text is smaller.
pub proof fn law_by_text_whole(s: Seq<Doc>, k: Seq<char>)
    ensures
        ranked(s, by_text(k)).len() == s.len(),
        ranked(s, by_text(k)).to_multiset() == s.to_multiset(),
        forall|i: int, j: int|
            0 <= i < j < s.len() ==> text::in_order(
                (#[trigger] ranked(s, by_text(k))[i]).text_in(k),
                (#[trigger] ranked(s, by_text(k))[j]).text_in(k),
            ),
{
    let r = ranked(s, by_text(k));
    law_ranked_keeps_all(s, by_text(k));
    lemma_ranked_len(s, by_text(k));
    assert forall|i: int, j: int| 0 <= i < j < s.len() implies text::in_order(
        (#[trigger] r[i]).text_in(k),
        (#[trigger] r[j]).text_in(k),
    ) by {
        law_by_text(s, k, i, j);
    }
}

/// Whatever a list in order holds, the list held, and the other way round.
pub proof fn lemma_ranked_holds<T>(s: Seq<T>, le: spec_fn(T, T) -> bool, y: T)
    ensures
        ranked(s, le).contains(y) == s.contains(y),
{
    law_ranked_keeps_all(s, le);
    s.to_multiset_ensures();
    ranked(s, le).to_multiset_ensures();
    assert(s.contains(y) == (s.to_multiset().count(y) > 0));
    assert(ranked(s, le).contains(y) == (ranked(s, le).to_multiset().count(y) > 0));
}

} // verus!
