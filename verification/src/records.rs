//! Lists of records that are known by an id.
use crate::json;
use crate::json::{Doc, Json};
use crate::lists;
use crate::text;
use vstd::prelude::*;

verus! {

/// Whether a record has that id.
pub open spec fn has_id(d: Doc, id: Seq<char>) -> bool {
    d.text_at("id"@) == Some(id)
}

/// The place of the first record with that id.
pub open spec fn place_of_id(list: Seq<Doc>, id: Seq<char>) -> Option<int> {
    lists::first_at(list, |d: Doc| has_id(d, id))
}

/// The records without those of that id.
pub open spec fn without_id(list: Seq<Doc>, id: Seq<char>) -> Seq<Doc> {
    list.filter(|d: Doc| !has_id(d, id))
}

pub fn is_called(d: &Json, id: &str) -> (r: bool)
    ensures
        r == has_id(d@, id@),
{
    match d.text_at("id") {
        Some(s) => text::same(s, id),
        None => false,
    }
}

/// The place of the first record with that id.
pub fn find_id(list: &Vec<Json>, id: &str) -> (r: Option<usize>)
    ensures
        match r {
            Some(i) => i < list@.len() && place_of_id(json::docs(list@), id@) == Some(i as int),
            None => place_of_id(json::docs(list@), id@) is None,
        },
{
    let ghost wanted = |d: Doc| has_id(d, id@);
    let ghost all = json::docs(list@);
    let mut i: usize = 0;
    while i < list.len()
        invariant
            i <= list@.len(),
            all == json::docs(list@),
            wanted == (|d: Doc| has_id(d, id@)),
            forall|k: int| 0 <= k < i ==> !wanted(#[trigger] all[k]),
        decreases list@.len() - i,
    {
        assert(all[i as int] == list@[i as int]@);
        if is_called(&list[i], id) {
            proof {
                lists::lemma_first_at(all, wanted, i as int);
            }
            return Some(i);
        }
        i = i + 1;
    }
    proof {
        lists::lemma_first_nowhere(all, wanted);
    }
    None
}

/// The records without those of that id.
pub fn drop_id(list: Vec<Json>, id: &str) -> (r: Vec<Json>)
    ensures
        json::docs(r@) == without_id(json::docs(list@), id@),
{
    let ghost keep = |d: Doc| !has_id(d, id@);
    let ghost all = json::docs(list@);
    let mut out: Vec<Json> = Vec::new();
    let mut i: usize = 0;
    proof {
        lists::lemma_filter_none(keep);
        assert(all.take(0) =~= Seq::<Doc>::empty());
        assert(json::docs(out@) =~= Seq::<Doc>::empty());
    }
    while i < list.len()
        invariant
            i <= list@.len(),
            all == json::docs(list@),
            keep == (|d: Doc| !has_id(d, id@)),
            json::docs(out@) == all.take(i as int).filter(keep),
        decreases list@.len() - i,
    {
        proof {
            lists::lemma_filter_step(all, i as int, keep);
            assert(all[i as int] == list@[i as int]@);
        }
        if !is_called(&list[i], id) {
            let ghost before = out@;
            let copy = list[i].clone();
            out.push(copy);
            assert(json::docs(out@) =~= json::docs(before).push(copy@));
        }
        i = i + 1;
    }
    assert(all.take(i as int) =~= all);
    out
}

/// A list of documents with one of them replaced.
pub fn replace_at(list: Vec<Json>, i: usize, d: Json) -> (r: Vec<Json>)
    requires
        i < list@.len(),
    ensures
        json::docs(r@) == json::docs(list@).update(i as int, d@),
{
    let mut out = list;
    let ghost before = out@;
    out.set(i, d);
    assert(json::docs(out@) =~= json::docs(before).update(i as int, d@));
    out
}

/// A list of documents with one more at its end.
pub fn add_last(list: Vec<Json>, d: Json) -> (r: Vec<Json>)
    ensures
        json::docs(r@) == json::docs(list@).push(d@),
{
    let mut out = list;
    let ghost before = out@;
    out.push(d);
    assert(json::docs(out@) =~= json::docs(before).push(d@));
    out
}

/// After those of an id were taken out, none with that id is left.
pub proof fn law_dropped_is_gone(list: Seq<Doc>, id: Seq<char>)
    ensures
        place_of_id(without_id(list, id), id) is None,
{
    let left = without_id(list, id);
    let wanted = |d: Doc| has_id(d, id);
    let keep = |d: Doc| !has_id(d, id);
    assert forall|k: int| 0 <= k < left.len() implies !wanted(#[trigger] left[k]) by {
        assert(left.contains(left[k]));
        lists::lemma_filter_holds(list, keep, left[k]);
        assert(keep(left[k]));
    }
    lists::lemma_first_nowhere(left, wanted);
}

/// A record is found by the text of its `id`: the first that has it, and none
/// where no record does.
pub proof fn law_found_by_id(list: Seq<Doc>, id: Seq<char>, i: int)
    ensures
        (forall|j: int| 0 <= j < list.len() ==> (#[trigger] list[j]).text_at("id"@) != Some(id))
            ==> place_of_id(list, id) is None,
        0 <= i < list.len() && list[i].text_at("id"@) == Some(id) && (forall|j: int|
            0 <= j < i ==> (#[trigger] list[j]).text_at("id"@) != Some(id)) ==> place_of_id(list, id)
            == Some(i),
{
    let wanted = |d: Doc| has_id(d, id);
    if forall|j: int| 0 <= j < list.len() ==> (#[trigger] list[j]).text_at("id"@) != Some(id) {
        assert forall|k: int| 0 <= k < list.len() implies !wanted(#[trigger] list[k]) by {
            assert(list[k].text_at("id"@) != Some(id));
        }
        lists::lemma_first_nowhere(list, wanted);
    }
    if 0 <= i < list.len() && list[i].text_at("id"@) == Some(id) && (forall|j: int|
        0 <= j < i ==> (#[trigger] list[j]).text_at("id"@) != Some(id)) {
        assert forall|k: int| 0 <= k < i implies !wanted(#[trigger] list[k]) by {
            assert(list[k].text_at("id"@) != Some(id));
        }
        lists::lemma_first_at(list, wanted, i);
    }
}

/// Deleting by an id takes out the records that have it and leaves the others
/// in their order.
pub proof fn law_dropped(list: Seq<Doc>, id: Seq<char>, d: Doc)
    ensures
        d.text_at("id"@) == Some(id) ==> without_id(list.push(d), id) == without_id(list, id),
        d.text_at("id"@) != Some(id) ==> without_id(list.push(d), id) == without_id(list, id).push(
            d,
        ),
        without_id(Seq::<Doc>::empty(), id) == Seq::<Doc>::empty(),
{
    lists::lemma_filter_push(list, d, |d: Doc| !has_id(d, id));
    lists::lemma_filter_none(|d: Doc| !has_id(d, id));
}

} // verus!
