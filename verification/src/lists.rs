//! Facts about lists.
use vstd::prelude::*;

verus! {

/// A list grown by one item is filtered as before, and the item with it.
pub proof fn lemma_filter_push<T>(s: Seq<T>, x: T, keep: spec_fn(T) -> bool)
    ensures
        s.push(x).filter(keep) == if keep(x) {
            s.filter(keep).push(x)
        } else {
            s.filter(keep)
        },
{
    reveal(Seq::filter);
    assert(s.push(x).drop_last() =~= s);
}

/// One step along a list: what the first `i` items leave after filtering
/// grows by the next item, where that one is kept.
pub proof fn lemma_filter_step<T>(s: Seq<T>, i: int, keep: spec_fn(T) -> bool)
    requires
        0 <= i < s.len(),
    ensures
        s.take(i + 1).filter(keep) == if keep(s[i]) {
            s.take(i).filter(keep).push(s[i])
        } else {
            s.take(i).filter(keep)
        },
{
    assert(s.take(i + 1) =~= s.take(i).push(s[i]));
    lemma_filter_push(s.take(i), s[i], keep);
}

pub proof fn lemma_filter_none<T>(keep: spec_fn(T) -> bool)
    ensures
        Seq::<T>::empty().filter(keep) == Seq::<T>::empty(),
{
    reveal(Seq::filter);
}

/// The items for which `f` gives something, and what it gives.
pub open spec fn picked<T, U>(s: Seq<T>, f: spec_fn(T) -> Option<U>) -> Seq<U>
    decreases s.len(),
{
    if s.len() == 0 {
        Seq::<U>::empty()
    } else {
        match f(s.last()) {
            Some(u) => picked(s.drop_last(), f).push(u),
            None => picked(s.drop_last(), f),
        }
    }
}

pub proof fn lemma_picked_step<T, U>(s: Seq<T>, i: int, f: spec_fn(T) -> Option<U>)
    requires
        0 <= i < s.len(),
    ensures
        picked(s.take(i + 1), f) == match f(s[i]) {
            Some(u) => picked(s.take(i), f).push(u),
            None => picked(s.take(i), f),
        },
{
    assert(s.take(i + 1).drop_last() =~= s.take(i));
}

/// Where `f` gives every item back, what is picked is the list itself.
pub proof fn lemma_picked_all<T>(s: Seq<T>, f: spec_fn(T) -> Option<T>)
    requires
        forall|i: int| 0 <= i < s.len() ==> f(#[trigger] s[i]) == Some(s[i]),
    ensures
        picked(s, f) == s,
    decreases s.len(),
{
    if s.len() > 0 {
        let front = s.drop_last();
        assert forall|i: int| 0 <= i < front.len() implies f(#[trigger] front[i]) == Some(front[i]) by {
            assert(front[i] == s[i]);
        }
        lemma_picked_all(front, f);
        assert(f(s[s.len() - 1]) == Some(s[s.len() - 1]));
        assert(s =~= front.push(s.last()));
    }
}

/// Everything that is picked was given by `f` for some item.
pub proof fn lemma_picked_from<T, U>(s: Seq<T>, f: spec_fn(T) -> Option<U>, i: int)
    requires
        0 <= i < picked(s, f).len(),
    ensures
        exists|j: int| 0 <= j < s.len() && f(#[trigger] s[j]) == Some(picked(s, f)[i]),
    decreases s.len(),
{
    let front = s.drop_last();
    if i < picked(front, f).len() {
        lemma_picked_from(front, f, i);
        let j = choose|j: int| 0 <= j < front.len() && f(#[trigger] front[j]) == Some(picked(front, f)[i]);
        assert(s[j] == front[j]);
    } else {
        assert(f(s[s.len() - 1]) == Some(picked(s, f)[i]));
    }
}

/// The items of a list without those that stood in it before.
pub open spec fn first_seen<T>(s: Seq<T>) -> Seq<T>
    decreases s.len(),
{
    if s.len() == 0 {
        Seq::<T>::empty()
    } else if first_seen(s.drop_last()).contains(s.last()) {
        first_seen(s.drop_last())
    } else {
        first_seen(s.drop_last()).push(s.last())
    }
}

/// What is seen first stood in the list, and nothing stands there twice.
pub proof fn lemma_first_seen<T>(s: Seq<T>)
    ensures
        first_seen(s).no_duplicates(),
        forall|i: int| 0 <= i < first_seen(s).len() ==> s.contains(#[trigger] first_seen(s)[i]),
    decreases s.len(),
{
    if s.len() > 0 {
        let front = s.drop_last();
        lemma_first_seen(front);
        let before = first_seen(front);
        assert forall|i: int| 0 <= i < first_seen(s).len() implies s.contains(
            #[trigger] first_seen(s)[i],
        ) by {
            if i < before.len() {
                assert(first_seen(s)[i] == before[i]);
                assert(front.contains(before[i]));
                let k = choose|k: int| 0 <= k < front.len() && front[k] == before[i];
                assert(s[k] == before[i]);
            } else {
                assert(s[s.len() - 1] == s.last());
            }
        }
        if !before.contains(s.last()) {
            assert forall|i: int, j: int|
                0 <= i < j < first_seen(s).len() implies first_seen(s)[i] != first_seen(s)[j] by {
                if j == before.len() {
                    assert(before.contains(before[i]));
                }
            }
        }
    }
}

/// A list in which nothing stands twice is seen as it is.
pub proof fn lemma_all_first_seen<T>(s: Seq<T>)
    requires
        s.no_duplicates(),
    ensures
        first_seen(s) == s,
    decreases s.len(),
{
    if s.len() > 0 {
        let front = s.drop_last();
        assert(front.no_duplicates());
        lemma_all_first_seen(front);
        if front.contains(s.last()) {
            let k = choose|k: int| 0 <= k < front.len() && front[k] == s.last();
            assert(s[k] == s[s.len() - 1]);
        }
        assert(s =~= front.push(s.last()));
    }
}

/// The items of a list whose key no item before them has.
pub open spec fn first_by<T, K>(s: Seq<T>, key: spec_fn(T) -> K) -> Seq<T>
    decreases s.len(),
{
    if s.len() == 0 {
        Seq::<T>::empty()
    } else {
        let before = first_by(s.drop_last(), key);
        if exists|j: int| 0 <= j < before.len() && key(#[trigger] before[j]) == key(s.last()) {
            before
        } else {
            before.push(s.last())
        }
    }
}

/// Whether no two items have the same key.
pub open spec fn keys_differ<T, K>(s: Seq<T>, key: spec_fn(T) -> K) -> bool {
    forall|i: int, j: int|
        0 <= i < j < s.len() ==> key(#[trigger] s[i]) != key(#[trigger] s[j])
}

/// What is first by its key stood in the list, and no two have the same key.
pub proof fn lemma_first_by<T, K>(s: Seq<T>, key: spec_fn(T) -> K)
    ensures
        keys_differ(first_by(s, key), key),
        forall|i: int| 0 <= i < first_by(s, key).len() ==> s.contains(#[trigger] first_by(s, key)[i]),
    decreases s.len(),
{
    if s.len() > 0 {
        let front = s.drop_last();
        lemma_first_by(front, key);
        let before = first_by(front, key);
        let after = first_by(s, key);
        assert forall|i: int| 0 <= i < after.len() implies s.contains(#[trigger] after[i]) by {
            if i < before.len() {
                assert(after[i] == before[i]);
                assert(front.contains(before[i]));
                let k = choose|k: int| 0 <= k < front.len() && front[k] == before[i];
                assert(s[k] == before[i]);
            } else {
                assert(s[s.len() - 1] == s.last());
            }
        }
    }
}

/// A list in which no two items have the same key is kept as it is.
pub proof fn lemma_all_first_by<T, K>(s: Seq<T>, key: spec_fn(T) -> K)
    requires
        keys_differ(s, key),
    ensures
        first_by(s, key) == s,
    decreases s.len(),
{
    if s.len() > 0 {
        let front = s.drop_last();
        assert(keys_differ(front, key)) by {
            assert forall|i: int, j: int| 0 <= i < j < front.len() implies key(#[trigger] front[i])
                != key(#[trigger] front[j]) by {
                assert(front[i] == s[i] && front[j] == s[j]);
            }
        }
        lemma_all_first_by(front, key);
        assert forall|j: int| 0 <= j < front.len() implies key(#[trigger] front[j]) != key(
            s.last(),
        ) by {
            assert(front[j] == s[j]);
            assert(key(s[j]) != key(s[s.len() - 1]));
        }
        assert(s =~= front.push(s.last()));
    }
}

/// A filtered list in which every item is kept is the list itself.
pub proof fn lemma_filter_all<T>(s: Seq<T>, keep: spec_fn(T) -> bool)
    requires
        forall|i: int| 0 <= i < s.len() ==> keep(#[trigger] s[i]),
    ensures
        s.filter(keep) == s,
    decreases s.len(),
{
    reveal(Seq::filter);
    if s.len() > 0 {
        assert forall|i: int| 0 <= i < s.drop_last().len() implies keep(#[trigger] s.drop_last()[i]) by {
            assert(s.drop_last()[i] == s[i]);
        }
        lemma_filter_all(s.drop_last(), keep);
        assert(s =~= s.drop_last().push(s.last()));
    }
}

/// Everything in a filtered list was in the list and is kept.
pub proof fn lemma_filter_holds<T>(s: Seq<T>, keep: spec_fn(T) -> bool, x: T)
    ensures
        s.filter(keep).contains(x) == (s.contains(x) && keep(x)),
    decreases s.len(),
{
    reveal(Seq::filter);
    if s.len() > 0 {
        let front = s.drop_last();
        lemma_filter_holds(front, keep, x);
        assert(s =~= front.push(s.last()));
        if s.contains(x) {
            let k = choose|k: int| 0 <= k < s.len() && s[k] == x;
            if k < front.len() {
                assert(front[k] == x);
                assert(front.contains(x));
            }
        }
        if front.contains(x) {
            let k = choose|k: int| 0 <= k < front.len() && front[k] == x;
            assert(s[k] == x);
        }
        let f = front.filter(keep);
        if keep(s.last()) {
            assert(f.push(s.last()).last() == s.last());
            if f.contains(x) {
                let k = choose|k: int| 0 <= k < f.len() && f[k] == x;
                assert(f.push(s.last())[k] == x);
            }
            if f.push(s.last()).contains(x) {
                let k = choose|k: int|
                    0 <= k < f.push(s.last()).len() && f.push(s.last())[k] == x;
                if k < f.len() {
                    assert(f[k] == x);
                }
            }
            if x == s.last() {
                assert(s[s.len() - 1] == x);
            }
        }
    }
}

/// A list without the items that go, and with a new one at its end.
pub open spec fn replaced<T>(s: Seq<T>, gone: Seq<T>, x: T) -> Seq<T> {
    s.filter(|y: T| !gone.contains(y)).push(x)
}

/// Where all items of a sort go and one of that sort comes, that one alone is
/// of the sort; the others stay.
pub proof fn lemma_replaced<T>(s: Seq<T>, wanted: spec_fn(T) -> bool, x: T)
    requires
        wanted(x),
    ensures
        replaced(s, s.filter(wanted), x).filter(wanted) == seq![x],
        forall|y: T|
            !wanted(y) ==> #[trigger] replaced(s, s.filter(wanted), x).contains(y) == s.contains(y),
{
    let gone = s.filter(wanted);
    let stays = |y: T| !gone.contains(y);
    let rest = s.filter(stays);
    lemma_filter_push(rest, x, wanted);
    if rest.filter(wanted).len() > 0 {
        let e = rest.filter(wanted)[0];
        assert(rest.filter(wanted).contains(e));
        lemma_filter_holds(rest, wanted, e);
        lemma_filter_holds(s, stays, e);
        lemma_filter_holds(s, wanted, e);
    }
    assert(rest.filter(wanted).push(x) =~= seq![x]);
    assert forall|y: T| !wanted(y) implies #[trigger] rest.push(x).contains(y) == s.contains(y) by {
        lemma_filter_holds(s, stays, y);
        lemma_filter_holds(s, wanted, y);
        if rest.contains(y) {
            let k = choose|k: int| 0 <= k < rest.len() && rest[k] == y;
            assert(rest.push(x)[k] == y);
        }
        if rest.push(x).contains(y) {
            let k = choose|k: int| 0 <= k < rest.push(x).len() && rest.push(x)[k] == y;
            assert(k < rest.len());
            assert(rest[k] == y);
        }
    }
}

/// The place of the first item that is wanted.
pub open spec fn first_at<T>(s: Seq<T>, wanted: spec_fn(T) -> bool) -> Option<int>
    decreases s.len(),
{
    if s.len() == 0 {
        None
    } else {
        match first_at(s.drop_last(), wanted) {
            Some(i) => Some(i),
            None => if wanted(s.last()) {
                Some(s.len() - 1)
            } else {
                None
            },
        }
    }
}

/// The first item that is wanted stands at `i`, where none before it is.
pub proof fn lemma_first_at<T>(s: Seq<T>, wanted: spec_fn(T) -> bool, i: int)
    requires
        0 <= i < s.len(),
        wanted(s[i]),
        forall|k: int| 0 <= k < i ==> !wanted(#[trigger] s[k]),
    ensures
        first_at(s, wanted) == Some(i),
    decreases s.len(),
{
    let front = s.drop_last();
    if i < front.len() {
        assert forall|k: int| 0 <= k < i implies !wanted(#[trigger] front[k]) by {
            assert(front[k] == s[k]);
        }
        lemma_first_at(front, wanted, i);
    } else {
        assert forall|k: int| 0 <= k < front.len() implies !wanted(#[trigger] front[k]) by {
            assert(front[k] == s[k]);
        }
        lemma_first_nowhere(front, wanted);
    }
}

pub proof fn lemma_first_nowhere<T>(s: Seq<T>, wanted: spec_fn(T) -> bool)
    requires
        forall|k: int| 0 <= k < s.len() ==> !wanted(#[trigger] s[k]),
    ensures
        first_at(s, wanted) is None,
    decreases s.len(),
{
    if s.len() > 0 {
        let front = s.drop_last();
        assert forall|k: int| 0 <= k < front.len() implies !wanted(#[trigger] front[k]) by {
            assert(front[k] == s[k]);
        }
        lemma_first_nowhere(front, wanted);
    }
}

/// What `first_at` finds is wanted, and nothing before it is; where it finds
/// nothing, nothing is wanted.
pub proof fn lemma_first_found<T>(s: Seq<T>, wanted: spec_fn(T) -> bool)
    ensures
        match first_at(s, wanted) {
            Some(i) => 0 <= i < s.len() && wanted(s[i]) && forall|k: int|
                0 <= k < i ==> !wanted(#[trigger] s[k]),
            None => forall|k: int| 0 <= k < s.len() ==> !wanted(#[trigger] s[k]),
        },
    decreases s.len(),
{
    if s.len() > 0 {
        let front = s.drop_last();
        lemma_first_found(front, wanted);
        match first_at(front, wanted) {
            Some(i) => {
                assert forall|k: int| 0 <= k < i implies !wanted(#[trigger] s[k]) by {
                    assert(front[k] == s[k]);
                }
            },
            None => {
                assert forall|k: int| 0 <= k < s.len() - 1 implies !wanted(#[trigger] s[k]) by {
                    assert(front[k] == s[k]);
                }
            },
        }
    }
}

/// What `f` gives for an item is picked.
pub proof fn lemma_picked_has<T, U>(s: Seq<T>, f: spec_fn(T) -> Option<U>, i: int)
    requires
        0 <= i < s.len(),
        f(s[i]) is Some,
    ensures
        picked(s, f).contains(f(s[i])->0),
    decreases s.len(),
{
    let front = s.drop_last();
    let x = f(s[i])->0;
    if i < front.len() {
        lemma_picked_has(front, f, i);
        let k = choose|k: int| 0 <= k < picked(front, f).len() && picked(front, f)[k] == x;
        assert(picked(s, f)[k] == x);
    } else {
        assert(picked(s, f).last() == x);
    }
}

/// What is picked from a list with one more item is what was picked before,
/// and what `f` gives for the item, where it gives something.
pub proof fn law_picked_grows<T, U>(s: Seq<T>, x: T, f: spec_fn(T) -> Option<U>)
    ensures
        picked(Seq::<T>::empty(), f).len() == 0,
        f(x) is None ==> picked(s.push(x), f) == picked(s, f),
        f(x) is Some ==> picked(s.push(x), f) == picked(s, f).push(f(x)->0),
{
    assert(s.push(x).drop_last() =~= s);
}

/// What is seen first in a list is what stands in it.
pub proof fn lemma_first_seen_has<T>(s: Seq<T>, x: T)
    ensures
        first_seen(s).contains(x) == s.contains(x),
    decreases s.len(),
{
    lemma_first_seen(s);
    if first_seen(s).contains(x) {
        let k = choose|k: int| 0 <= k < first_seen(s).len() && first_seen(s)[k] == x;
        assert(s.contains(first_seen(s)[k]));
    }
    if s.contains(x) {
        let front = s.drop_last();
        lemma_first_seen_has(front, x);
        let before = first_seen(front);
        let k = choose|k: int| 0 <= k < s.len() && s[k] == x;
        if k < front.len() {
            assert(front[k] == x);
            assert(front.contains(x));
            let j = choose|j: int| 0 <= j < before.len() && before[j] == x;
            assert(first_seen(s)[j] == x);
        } else if !before.contains(s.last()) {
            assert(first_seen(s)[before.len() as int] == x);
        }
    }
}

/// Whatever stands in a list, its key stands among the first by key.
pub proof fn lemma_first_by_has<T, K>(s: Seq<T>, key: spec_fn(T) -> K, x: T)
    requires
        s.contains(x),
    ensures
        exists|j: int| 0 <= j < first_by(s, key).len() && key(#[trigger] first_by(s, key)[j]) == key(x),
    decreases s.len(),
{
    let front = s.drop_last();
    let before = first_by(front, key);
    let k = choose|k: int| 0 <= k < s.len() && s[k] == x;
    if k < front.len() {
        assert(front[k] == x);
        lemma_first_by_has(front, key, x);
        let j = choose|j: int| 0 <= j < before.len() && key(#[trigger] before[j]) == key(x);
        assert(first_by(s, key)[j] == before[j]);
    } else if exists|j: int| 0 <= j < before.len() && key(#[trigger] before[j]) == key(x) {
        let j = choose|j: int| 0 <= j < before.len() && key(#[trigger] before[j]) == key(x);
        assert(first_by(s, key)[j] == before[j]);
    } else {
        assert(first_by(s, key)[before.len() as int] == x);
    }
}

} // verus!
