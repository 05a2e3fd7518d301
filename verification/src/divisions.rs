//! Divisions: the groups into which the store is divided.
use crate::autofill;
use crate::digits;
use crate::failure;
use crate::failure::{fail, Failure, Status};
use crate::json;
use crate::json::{Doc, Json};
use crate::lists;
use crate::names;
use crate::photos;
use crate::records;
use crate::text;
use vstd::prelude::*;
use vstd::string::*;

verus! {

/// Whether an item lies in a division.
pub open spec fn lies_in(item: Doc, id: Seq<char>) -> bool {
    item.text_at("division_id"@) == Some(id)
}

/// How many items lie in a division.
pub open spec fn items_in(items: Seq<Doc>, id: Seq<char>) -> nat {
    items.filter(|i: Doc| lies_in(i, id)).len()
}

pub fn count_items(items: &Vec<Json>, id: &str) -> (r: usize)
    ensures
        r == items_in(json::docs(items@), id@),
{
    let ghost all = json::docs(items@);
    let ghost keep = |i: Doc| lies_in(i, id@);
    let mut total: usize = 0;
    let mut i: usize = 0;
    proof {
        lists::lemma_filter_none(keep);
        assert(all.take(0) =~= Seq::<Doc>::empty());
    }
    while i < items.len()
        invariant
            i <= items@.len(),
            total <= i,
            all == json::docs(items@),
            keep == (|i: Doc| lies_in(i, id@)),
            total == all.take(i as int).filter(keep).len(),
        decreases items@.len() - i,
    {
        proof {
            lists::lemma_filter_step(all, i as int, keep);
            assert(all[i as int] == items@[i as int]@);
        }
        if let Some(s) = items[i].text_at("division_id") {
            if text::same(s, id) {
                total = total + 1;
            }
        }
        i = i + 1;
    }
    assert(all.take(i as int) =~= all);
    total
}

/// Whether a file is a picture of a division, whatever its kind.
pub open spec fn is_picture_of(file: Seq<char>, id: Seq<char>) -> bool {
    names::stem(file) == names::safe_name(id)
}

/// The place of the picture of a division among the files of pictures.
pub open spec fn picture_place(files: Seq<Seq<char>>, id: Seq<char>) -> Option<int> {
    lists::first_at(files, |f: Seq<char>| is_picture_of(f, id))
}

/// The place of the picture of a division among the files of pictures.
pub fn find_division_photo(files: &Vec<String>, id: &str) -> (r: Option<usize>)
    ensures
        match r {
            Some(i) => i < files@.len() && picture_place(text::texts(files@), id@) == Some(i as int),
            None => picture_place(text::texts(files@), id@) is None,
        },
{
    let stem = names::sanitize_filename(id);
    let ghost all = text::texts(files@);
    let ghost wanted = |f: Seq<char>| is_picture_of(f, id@);
    let mut i: usize = 0;
    while i < files.len()
        invariant
            i <= files@.len(),
            stem@ == names::safe_name(id@),
            all == text::texts(files@),
            wanted == (|f: Seq<char>| is_picture_of(f, id@)),
            forall|k: int| 0 <= k < i ==> !wanted(#[trigger] all[k]),
        decreases files@.len() - i,
    {
        assert(all[i as int] == files@[i as int]@);
        if text::same(names::file_stem(files[i].as_str()).as_str(), stem.as_str()) {
            proof {
                lists::lemma_first_at(all, wanted, i as int);
            }
            return Some(i);
        }
        i = i + 1;
    }
    proof {
        lists::lemma_first_nowhere(all, wanted);
    }
    None
}

/// The files that go when a picture of a division is uploaded: every one that
/// is a picture of it.
pub fn old_division_photos(files: &Vec<String>, id: &str) -> (r: Vec<String>)
    ensures
        text::texts(r@) == text::texts(files@).filter(|f: Seq<char>| is_picture_of(f, id@)),
{
    let stem = names::sanitize_filename(id);
    let ghost all = text::texts(files@);
    let ghost keep = |f: Seq<char>| is_picture_of(f, id@);
    let mut out: Vec<String> = Vec::new();
    let mut i: usize = 0;
    proof {
        lists::lemma_filter_none(keep);
        assert(all.take(0) =~= Seq::<Seq<char>>::empty());
        assert(text::texts(out@) =~= Seq::<Seq<char>>::empty());
    }
    while i < files.len()
        invariant
            i <= files@.len(),
            stem@ == names::safe_name(id@),
            all == text::texts(files@),
            keep == (|f: Seq<char>| is_picture_of(f, id@)),
            text::texts(out@) == all.take(i as int).filter(keep),
        decreases files@.len() - i,
    {
        let ghost before = out@;
        proof {
            lists::lemma_filter_step(all, i as int, keep);
            assert(all[i as int] == files@[i as int]@);
        }
        if text::same(names::file_stem(files[i].as_str()).as_str(), stem.as_str()) {
            out.push(files[i].clone());
            assert(text::texts(out@) =~= text::texts(before).push(files@[i as int]@));
        }
        i = i + 1;
    }
    assert(all.take(i as int) =~= all);
    out
}

/// A division as it stands in the list: with the number of its items, whether
/// it has a picture, and a description.
pub open spec fn division_row(d: Doc, items: Seq<Doc>, files: Seq<Seq<char>>) -> Doc {
    let id = d.text_in("id"@);
    let counted = d.with("item_count"@, Doc::num(items_in(items, id) as int)).with(
        "has_photo"@,
        Doc::Bool(picture_place(files, id) is Some),
    );
    if counted.has("description"@) {
        counted
    } else {
        counted.with("description"@, Doc::Str(Seq::<char>::empty()))
    }
}

/// The list of divisions.
pub open spec fn divisions_answer(list: Seq<Doc>, items: Seq<Doc>, files: Seq<Seq<char>>) -> Doc {
    failure::listing(list.map_values(|d: Doc| division_row(d, items, files)))
}

fn make_row(d: &Json, items: &Vec<Json>, files: &Vec<String>) -> (r: Json)
    ensures
        r@ == division_row(d@, json::docs(items@), text::texts(files@)),
{
    let id = d.text_in("id");
    let count = count_items(items, id.as_str());
    let picture = find_division_photo(files, id.as_str()).is_some();
    let counted = d.clone().with("item_count", Json::of_u64(count as u64)).with(
        "has_photo",
        Json::Bool(picture),
    );
    if counted.has("description") {
        counted
    } else {
        let empty = String::new();
        assert(empty@ =~= Seq::<char>::empty());
        counted.with_text("description", empty.as_str())
    }
}

/// The list of divisions, given the items of the store and the files of
/// pictures.
pub fn list_divisions(list: &Vec<Json>, items: &Vec<Json>, files: &Vec<String>) -> (r: Json)
    ensures
        r@ == divisions_answer(json::docs(list@), json::docs(items@), text::texts(files@)),
{
    let ghost all = json::docs(list@);
    let ghost row = |d: Doc| division_row(d, json::docs(items@), text::texts(files@));
    let mut rows: Vec<Json> = Vec::new();
    let mut i: usize = 0;
    while i < list.len()
        invariant
            i <= list@.len(),
            all == json::docs(list@),
            row == (|d: Doc| division_row(d, json::docs(items@), text::texts(files@))),
            json::docs(rows@) == all.take(i as int).map_values(row),
        decreases list@.len() - i,
    {
        let ghost before = rows@;
        let item = make_row(&list[i], items, files);
        rows.push(item);
        assert(json::docs(rows@) =~= json::docs(before).push(item@));
        assert(json::docs(rows@) =~= all.take(i + 1).map_values(row));
        i = i + 1;
    }
    assert(all.take(i as int) =~= all);
    failure::list_answer(rows)
}

/// The record of a new division.
pub open spec fn new_division(name: Seq<char>, id: Seq<char>, now: u64) -> Doc {
    Doc::object().with("id"@, Doc::Str(id)).with("name"@, Doc::Str(name)).with(
        "created_ms"@,
        Doc::num(now as int),
    ).with("updated_ms"@, Doc::num(now as int))
}

/// The divisions with one more; it has to have a name.
pub open spec fn divisions_grown(list: Seq<Doc>, payload: Doc, id: Seq<char>, now: u64) -> Result<
    Seq<Doc>,
    (Status, Seq<char>),
> {
    let name = autofill::tidy(payload, "name"@);
    if name.len() == 0 {
        Err((Status::BadRequest, "name is required"@))
    } else {
        Ok(list.push(new_division(name, id, now)))
    }
}

pub fn create_division(list: Vec<Json>, payload: &Json, id: &str, now: u64) -> (r: Result<
    Vec<Json>,
    Failure,
>)
    ensures
        failure::docs_outcome(r) == divisions_grown(json::docs(list@), payload@, id@, now),
{
    let name = autofill::tidy_text(payload, "name");
    if name.as_str().is_empty() {
        return Err(fail(Status::BadRequest, "name is required"));
    }
    let d = Json::object().with_text("id", id).with_text("name", name.as_str()).with(
        "created_ms",
        Json::of_u64(now),
    ).with("updated_ms", Json::of_u64(now));
    Ok(records::add_last(list, d))
}

/// A document with a member set, where there is a text for it.
pub open spec fn with_given(d: Doc, k: Seq<char>, v: Option<Seq<char>>) -> Doc {
    match v {
        Some(s) => d.with(k, Doc::Str(s)),
        None => d,
    }
}

/// The text of a member without the space around it, where it is there.
pub open spec fn given(payload: Doc, k: Seq<char>) -> Option<Seq<char>> {
    match payload.text_at(k) {
        Some(s) => Some(text::trimmed(s)),
        None => None,
    }
}

/// A division with what was sent.
pub open spec fn division_changed(d: Doc, payload: Doc, now: u64) -> Doc {
    with_given(
        with_given(d, "name"@, given(payload, "name"@)),
        "description"@,
        given(payload, "description"@),
    ).with("updated_ms"@, Doc::num(now as int))
}

/// The divisions with that of an id changed. A name may be left out, but not
/// be empty.
pub open spec fn divisions_changed(list: Seq<Doc>, payload: Doc, id: Seq<char>, now: u64) -> Result<
    Seq<Doc>,
    (Status, Seq<char>),
> {
    if given(payload, "name"@) is Some && given(payload, "name"@)->0.len() == 0 {
        Err((Status::BadRequest, "name is required"@))
    } else if records::place_of_id(list, id) is None {
        Err((Status::NotFound, "division not found"@))
    } else {
        Ok(
            list.map_values(
                |d: Doc|
                    if records::has_id(d, id) {
                        division_changed(d, payload, now)
                    } else {
                        d
                    },
            ),
        )
    }
}

fn given_text(payload: &Json, k: &str) -> (r: Option<String>)
    ensures
        text::opt_text(r) == given(payload@, k@),
{
    match payload.text_at(k) {
        Some(s) => Some(text::trim(s)),
        None => None,
    }
}

fn set_given(d: Json, k: &str, v: &Option<String>) -> (r: Json)
    ensures
        r@ == with_given(d@, k@, text::opt_text(*v)),
{
    match v {
        Some(s) => d.with_text(k, s.as_str()),
        None => d,
    }
}

pub fn update_division(list: Vec<Json>, payload: &Json, id: &str, now: u64) -> (r: Result<
    Vec<Json>,
    Failure,
>)
    ensures
        failure::docs_outcome(r) == divisions_changed(json::docs(list@), payload@, id@, now),
{
    let name = given_text(payload, "name");
    let description = given_text(payload, "description");
    if let Some(n) = &name {
        if n.as_str().is_empty() {
            return Err(fail(Status::BadRequest, "name is required"));
        }
    }
    if records::find_id(&list, id).is_none() {
        return Err(fail(Status::NotFound, "division not found"));
    }
    let ghost change = |d: Doc|
        if records::has_id(d, id@) {
            division_changed(d, payload@, now)
        } else {
            d
        };
    let ghost all = json::docs(list@);
    let mut out: Vec<Json> = Vec::new();
    let mut i: usize = 0;
    while i < list.len()
        invariant
            i <= list@.len(),
            all == json::docs(list@),
            text::opt_text(name) == given(payload@, "name"@),
            text::opt_text(description) == given(payload@, "description"@),
            change == (|d: Doc|
                if records::has_id(d, id@) {
                    division_changed(d, payload@, now)
                } else {
                    d
                }),
            json::docs(out@) == all.take(i as int).map_values(change),
        decreases list@.len() - i,
    {
        let ghost before = out@;
        assert(all[i as int] == list@[i as int]@);
        let copy = list[i].clone();
        let next = if records::is_called(&list[i], id) {
            set_given(set_given(copy, "name", &name), "description", &description).with(
                "updated_ms",
                Json::of_u64(now),
            )
        } else {
            copy
        };
        out.push(next);
        assert(json::docs(out@) =~= json::docs(before).push(next@));
        assert(json::docs(out@) =~= all.take(i + 1).map_values(change));
        i = i + 1;
    }
    assert(all.take(i as int) =~= all);
    Ok(out)
}

/// The divisions without that of an id; one that holds items is not taken
/// out.
pub open spec fn divisions_left(list: Seq<Doc>, items: Seq<Doc>, id: Seq<char>) -> Result<
    Seq<Doc>,
    (Status, Seq<char>),
> {
    if items_in(items, id) > 0 {
        Err(
            (
                Status::Conflict,
                "Cannot delete: "@ + digits::decimal(items_in(items, id))
                    + " item(s) still in this division. Move or delete them first."@,
            ),
        )
    } else {
        Ok(records::without_id(list, id))
    }
}

pub fn delete_division(list: Vec<Json>, items: &Vec<Json>, id: &str) -> (r: Result<
    Vec<Json>,
    Failure,
>)
    ensures
        failure::docs_outcome(r) == divisions_left(json::docs(list@), json::docs(items@), id@),
{
    let count = count_items(items, id);
    if count > 0 {
        let mut message = "Cannot delete: ".to_owned();
        message.append(digits::number_text(count as u128).as_str());
        message.append(" item(s) still in this division. Move or delete them first.");
        return Err(fail(Status::Conflict, message.as_str()));
    }
    Ok(records::drop_id(list, id))
}

/// The picture of a division to keep, where that division is there: its bytes
/// and the name of its file.
pub fn upload_division_photo(list: &Vec<Json>, payload: &Json, id: &str) -> (r: Result<
    (Vec<u8>, String),
    Failure,
>)
    ensures
        match r {
            Ok(p) => records::place_of_id(json::docs(list@), id@) is Some && photos::uploaded(
                payload@,
            ) == Ok::<Seq<u8>, (Status, Seq<char>)>(p.0@) && photos::picture_named(
                payload@,
                "photo.png"@,
                id@,
                p.1@,
            ),
            Err(f) => if records::place_of_id(json::docs(list@), id@) is None {
                f@ == (Status::NotFound, "division not found"@)
            } else {
                photos::uploaded(payload@) == Err::<Seq<u8>, (Status, Seq<char>)>(f@)
            },
        },
{
    if records::find_id(list, id).is_none() {
        return Err(fail(Status::NotFound, "division not found"));
    }
    photos::upload_picture(payload, "photo.png", id)
}

/// The picture of a division to serve: its place among the files, and its
/// type of content.
pub fn get_division_photo(files: &Vec<String>, id: &str) -> (r: Result<
    (usize, &'static str),
    Failure,
>)
    ensures
        match r {
            Ok(p) => p.0 < files@.len() && picture_place(text::texts(files@), id@) == Some(
                p.0 as int,
            ) && p.1@ == photos::file_mime(files@[p.0 as int]@),
            Err(f) => picture_place(text::texts(files@), id@) is None && f@ == (
                Status::NotFound,
                "no photo"@,
            ),
        },
        match r {
            Ok(p) => picture_served(text::texts(files@), id@) == Ok::<
                (int, Seq<char>),
                (Status, Seq<char>),
            >((p.0 as int, p.1@)),
            Err(f) => picture_served(text::texts(files@), id@) == Err::<
                (int, Seq<char>),
                (Status, Seq<char>),
            >(f@),
        },
{
    match find_division_photo(files, id) {
        Some(i) => Ok((i, photos::file_content_type(files[i].as_str()))),
        None => Err(fail(Status::NotFound, "no photo")),
    }
}

/// A division is taken out exactly where nothing lies in it, and is then no
/// longer found; where something does, the request is a conflict.
pub proof fn law_delete_guarded(list: Seq<Doc>, items: Seq<Doc>, id: Seq<char>)
    ensures
        divisions_left(list, items, id) is Ok <==> forall|i: int|
            0 <= i < items.len() ==> !lies_in(#[trigger] items[i], id),
        divisions_left(list, items, id) matches Ok(left) ==> records::place_of_id(left, id) is None,
        divisions_left(list, items, id) matches Err(e) ==> e.0 == Status::Conflict,
{
    records::law_dropped_is_gone(list, id);
    let keep = |i: Doc| lies_in(i, id);
    let kept = items.filter(keep);
    if kept.len() > 0 {
        assert(kept.contains(kept[0]));
        lists::lemma_filter_holds(items, keep, kept[0]);
        let i = choose|i: int| 0 <= i < items.len() && items[i] == kept[0];
        assert(keep(items[i]));
        assert(lies_in(items[i], id));
    } else {
        assert forall|i: int| 0 <= i < items.len() implies !lies_in(#[trigger] items[i], id) by {
            lists::lemma_filter_holds(items, keep, items[i]);
            assert(items.contains(items[i]));
            if keep(items[i]) {
                assert(kept.contains(items[i]));
            }
        }
    }
}

proof fn lemma_division_names()
    ensures
        "id"@ != "name"@,
        "id"@ != "description"@,
        "id"@ != "updated_ms"@,
        "id"@ != "created_ms"@,
        "name"@ != "description"@,
        "name"@ != "updated_ms"@,
        "description"@ != "updated_ms"@,
{
    reveal_strlit("id");
    reveal_strlit("name");
    reveal_strlit("description");
    reveal_strlit("created_ms");
    reveal_strlit("updated_ms");
    assert("id"@.len() == 2 && "name"@.len() == 4 && "description"@.len() == 11);
    assert("created_ms"@.len() == 10 && "updated_ms"@.len() == 10);
}

/// A division that was created is found by its id, under its name.
pub proof fn law_created_division_is_found(list: Seq<Doc>, payload: Doc, id: Seq<char>, now: u64)
    requires
        records::place_of_id(list, id) is None,
    ensures
        divisions_grown(list, payload, id, now) matches Ok(grown) ==> records::place_of_id(
            grown,
            id,
        ) == Some(list.len() as int) && grown[list.len() as int].text_at("name"@) == Some(
            autofill::tidy(payload, "name"@),
        ),
{
    lemma_division_names();
    reveal_strlit("name");
    reveal_strlit("created_ms");
    assert("name"@.len() == 4 && "created_ms"@.len() == 10);
    let d = new_division(autofill::tidy(payload, "name"@), id, now);
    assert(list.push(d).drop_last() =~= list);
    assert(list.push(d).last() == d);
    assert(records::has_id(d, id));
}

/// A change of a division touches its name, its description and the time, and
/// of the first two only what was sent.
pub proof fn law_change_is_partial(d: Doc, payload: Doc, now: u64, k: Seq<char>)
    requires
        d.is_object(),
    ensures
        k != "name"@ && k != "description"@ && k != "updated_ms"@ ==> division_changed(
            d,
            payload,
            now,
        ).get(k) == d.get(k),
        payload.text_at("name"@) is None ==> division_changed(d, payload, now).get("name"@)
            == d.get("name"@),
        payload.text_at("description"@) is None ==> division_changed(d, payload, now).get(
            "description"@,
        ) == d.get("description"@),
{
    lemma_division_names();
}

/// A division has at most one picture: once the old ones have gone and the
/// uploaded one is kept, it alone is a picture of the division, and the other
/// files are as they were.
pub proof fn law_one_picture(files: Seq<Seq<char>>, payload: Doc, id: Seq<char>, file: Seq<char>)
    requires
        names::safe_name(id) == id,
        photos::picture_named(payload, "photo.png"@, id, file),
    ensures
        ({
            let after = lists::replaced(
                files,
                files.filter(|f: Seq<char>| is_picture_of(f, id)),
                file,
            );
            &&& after.filter(|f: Seq<char>| is_picture_of(f, id)) == seq![file]
            &&& forall|f: Seq<char>|
                !is_picture_of(f, id) ==> #[trigger] after.contains(f) == files.contains(f)
        }),
{
    let keep = |f: Seq<char>| is_picture_of(f, id);
    let kind = choose|kind: Seq<char>|
        photos::is_picture_kind(kind) && file == #[trigger] photos::picture_name(id, kind);
    names::law_safe_name(id);
    photos::law_picture_stem(id, kind);
    lists::lemma_replaced(files, keep, file);
    let after = lists::replaced(files, files.filter(keep), file);
    assert forall|f: Seq<char>| !is_picture_of(f, id) implies #[trigger] after.contains(f)
        == files.contains(f) by {
        assert(!keep(f));
    }
}

/// No two of these names are the same.
proof fn lemma_division_all_names()
    ensures
        "id"@.len() == 2,
        "name"@.len() == 4,
        "description"@.len() == 11,
        "created_ms"@.len() == 10,
        "updated_ms"@.len() == 10,
        "item_count"@.len() == 10,
        "has_photo"@.len() == 9,
        "division_id"@.len() == 11,
        "description"@ != "division_id"@,
        "created_ms"@ != "updated_ms"@,
        "created_ms"@ != "item_count"@,
        "updated_ms"@ != "item_count"@,
{
    reveal_strlit("id");
    reveal_strlit("name");
    reveal_strlit("description");
    reveal_strlit("created_ms");
    reveal_strlit("updated_ms");
    reveal_strlit("item_count");
    reveal_strlit("has_photo");
    reveal_strlit("division_id");
    assert("description"@[1] != "division_id"@[1]);
    assert("created_ms"@[0] != "updated_ms"@[0]);
    assert("created_ms"@[0] != "item_count"@[0]);
    assert("updated_ms"@[0] != "item_count"@[0]);
}

/// An item counts for a division where its record names it.
pub proof fn law_items_counted(items: Seq<Doc>, item: Doc, id: Seq<char>)
    ensures
        items_in(Seq::<Doc>::empty(), id) == 0,
        items_in(items.push(item), id) == items_in(items, id) + if item.text_at("division_id"@)
            == Some(id) {
            1nat
        } else {
            0nat
        },
{
    let keep = |i: Doc| lies_in(i, id);
    lists::lemma_filter_none(keep);
    lists::lemma_filter_push(items, item, keep);
}

/// The picture of a division is the first file that is called as its id, with
/// any extension.
pub proof fn law_picture_found(files: Seq<Seq<char>>, id: Seq<char>, front: Seq<char>, ext: Seq<char>)
    requires
        forall|k: int| 0 <= k < ext.len() ==> #[trigger] ext[k] != '.',
        front.len() > 0,
        !(front == seq!['.'] && ext.len() == 0),
    ensures
        is_picture_of(front + seq!['.'] + ext, id) <==> front == names::safe_name(id),
        is_picture_of(ext, id) <==> ext == names::safe_name(id),
        picture_place(files, id) matches Some(p) ==> 0 <= p < files.len() && is_picture_of(
            files[p],
            id,
        ) && forall|j: int| 0 <= j < p ==> !is_picture_of(#[trigger] files[j], id),
        picture_place(files, id) is None ==> forall|j: int|
            0 <= j < files.len() ==> !is_picture_of(#[trigger] files[j], id),
{
    names::law_extension(front, ext);
    let wanted = |f: Seq<char>| is_picture_of(f, id);
    lists::lemma_first_found(files, wanted);
    match picture_place(files, id) {
        Some(p) => {
            assert(wanted(files[p]));
            assert forall|j: int| 0 <= j < p implies !is_picture_of(#[trigger] files[j], id) by {
                assert(!wanted(files[j]));
            }
        },
        None => {
            assert forall|j: int| 0 <= j < files.len() implies !is_picture_of(
                #[trigger] files[j],
                id,
            ) by {
                assert(!wanted(files[j]));
            }
        },
    }
}

/// The row of a division says what its record says, how many items lie in it
/// and whether it has a picture. A description that is missing is empty.
pub proof fn law_division_row(d: Doc, items: Seq<Doc>, files: Seq<Seq<char>>, k: Seq<char>)
    requires
        d.is_object(),
        items.len() <= u64::MAX,
    ensures
        ({
            let r = division_row(d, items, files);
            &&& k != "item_count"@ && k != "has_photo"@ && k != "description"@ ==> r.get(k) == d.get(
                k,
            )
            &&& d.has("description"@) ==> r.get("description"@) == d.get("description"@)
            &&& !d.has("description"@) ==> r.text_at("description"@) == Some(Seq::<char>::empty())
            &&& r.whole_at("item_count"@) == Some(items_in(items, d.text_in("id"@)) as u64)
            &&& r.get("has_photo"@) == Some(
                Doc::Bool(picture_place(files, d.text_in("id"@)) is Some),
            )
        }),
{
    lemma_division_all_names();
    lemma_few_items(items, d.text_in("id"@));
}

proof fn lemma_few_items(items: Seq<Doc>, id: Seq<char>)
    ensures
        items_in(items, id) <= items.len(),
    decreases items.len(),
{
    if items.len() == 0 {
        assert(items =~= Seq::<Doc>::empty());
        law_items_counted(items, Doc::Null, id);
    } else {
        let front = items.drop_last();
        lemma_few_items(front, id);
        law_items_counted(front, items.last(), id);
        assert(items =~= front.push(items.last()));
    }
}

/// The list of divisions has a row for each, in their order.
pub proof fn law_divisions_listed(list: Seq<Doc>, items: Seq<Doc>, files: Seq<Seq<char>>, i: int)
    requires
        0 <= i < list.len(),
    ensures
        divisions_answer(list, items, files).items_at("items"@) matches Some(v) && v.len()
            == list.len() && v[i] == division_row(list[i], items, files),
{
    let v = list.map_values(|d: Doc| division_row(d, items, files));
    assert(divisions_answer(list, items, files).items_at("items"@) == Some(v));
}

/// A new division has the name that was sent, without the space around it; one
/// without a name is refused. It stands behind those that were there.
pub proof fn law_division_made(list: Seq<Doc>, payload: Doc, id: Seq<char>, now: u64, k: Seq<char>)
    ensures
        text::trimmed(payload.text_in("name"@)).len() == 0 ==> divisions_grown(list, payload, id, now)
            == Err::<Seq<Doc>, (Status, Seq<char>)>((Status::BadRequest, "name is required"@)),
        text::trimmed(payload.text_in("name"@)).len() > 0 ==> (divisions_grown(
            list,
            payload,
            id,
            now,
        ) matches Ok(v) && v.len() == list.len() + 1 && v.drop_last() == list && v.last().text_at(
            "id"@,
        ) == Some(id) && v.last().text_at("name"@) == Some(
            text::trimmed(payload.text_in("name"@)),
        ) && v.last().whole_at("created_ms"@) == Some(now) && v.last().whole_at("updated_ms"@)
            == Some(now) && (v.last().has(k) ==> k == "id"@ || k == "name"@ || k == "created_ms"@ || k
            == "updated_ms"@)),
{
    lemma_division_all_names();
    if text::trimmed(payload.text_in("name"@)).len() > 0 {
        let d = new_division(text::trimmed(payload.text_in("name"@)), id, now);
        assert(list.push(d).drop_last() =~= list);
    }
}

/// A changed division has the name and the description that were sent, without
/// the space around them, and those that it had where none were.
pub proof fn law_division_changed(d: Doc, payload: Doc, now: u64, k: Seq<char>, s: Seq<char>)
    requires
        d.is_object(),
    ensures
        (k == "name"@ || k == "description"@) && payload.text_at(k) == Some(s) ==> division_changed(
            d,
            payload,
            now,
        ).text_at(k) == Some(text::trimmed(s)),
        (k == "name"@ || k == "description"@) && payload.text_at(k) is None ==> division_changed(
            d,
            payload,
            now,
        ).get(k) == d.get(k),
        division_changed(d, payload, now).whole_at("updated_ms"@) == Some(now),
        k != "name"@ && k != "description"@ && k != "updated_ms"@ ==> division_changed(
            d,
            payload,
            now,
        ).get(k) == d.get(k),
{
    lemma_division_all_names();
}

/// Changing a division changes those with its id and no others. A name that is
/// sent and is blank is refused, and so is an id that no division has.
pub proof fn law_divisions_changed(
    list: Seq<Doc>,
    payload: Doc,
    id: Seq<char>,
    now: u64,
    i: int,
    j: int,
    s: Seq<char>,
)
    ensures
        payload.text_at("name"@) == Some(s) && text::trimmed(s).len() == 0 ==> divisions_changed(
            list,
            payload,
            id,
            now,
        ) == Err::<Seq<Doc>, (Status, Seq<char>)>((Status::BadRequest, "name is required"@)),
        !(payload.text_at("name"@) is Some && text::trimmed(payload.text_at("name"@)->0).len() == 0)
            && (forall|m: int|
            0 <= m < list.len() ==> (#[trigger] list[m]).text_at("id"@) != Some(id))
            ==> divisions_changed(list, payload, id, now) == Err::<Seq<Doc>, (Status, Seq<char>)>(
            (Status::NotFound, "division not found"@),
        ),
        !(payload.text_at("name"@) is Some && text::trimmed(payload.text_at("name"@)->0).len() == 0)
            && 0 <= i < list.len() && list[i].text_at("id"@) == Some(id) ==> (divisions_changed(
            list,
            payload,
            id,
            now,
        ) matches Ok(v) && v.len() == list.len() && v[i] == division_changed(list[i], payload, now)
            && (0 <= j < list.len() && list[j].text_at("id"@) != Some(id) ==> v[j] == list[j])),
{
    records::law_found_by_id(list, id, i);
    let wanted = |d: Doc| records::has_id(d, id);
    lists::lemma_first_found(list, wanted);
    if 0 <= i < list.len() && list[i].text_at("id"@) == Some(id) {
        assert(wanted(list[i]));
    }
}

/// Deleting a division takes out those with its id, where no item lies in it;
/// otherwise it is said how many do.
pub proof fn law_division_deleted(list: Seq<Doc>, items: Seq<Doc>, id: Seq<char>, d: Doc)
    ensures
        items_in(items, id) == 0 ==> (divisions_left(list, items, id) matches Ok(v) && (v.contains(d)
            <==> list.contains(d) && d.text_at("id"@) != Some(id))),
        items_in(items, id) > 0 ==> divisions_left(list, items, id) == Err::<
            Seq<Doc>,
            (Status, Seq<char>),
        >(
            (
                Status::Conflict,
                "Cannot delete: "@ + digits::decimal(items_in(items, id))
                    + " item(s) still in this division. Move or delete them first."@,
            ),
        ),
{
    lists::lemma_filter_holds(list, |x: Doc| !records::has_id(x, id), d);
}

/// The file to serve as the picture of a division, and its type of content.
pub open spec fn picture_served(files: Seq<Seq<char>>, id: Seq<char>) -> Result<
    (int, Seq<char>),
    (Status, Seq<char>),
> {
    match picture_place(files, id) {
        Some(i) => Ok((i, photos::file_mime(files[i]))),
        None => Err((Status::NotFound, "no photo"@)),
    }
}

/// What is served is a picture of the division, the first there is, as what its
/// extension says; where there is none, that is said.
pub proof fn law_picture_served(files: Seq<Seq<char>>, id: Seq<char>)
    ensures
        picture_served(files, id) matches Ok(p) ==> 0 <= p.0 < files.len() && is_picture_of(
            files[p.0],
            id,
        ) && (forall|j: int| 0 <= j < p.0 ==> !is_picture_of(#[trigger] files[j], id)) && p.1
            == photos::file_mime(files[p.0]),
        picture_served(files, id) matches Err(e) ==> e == (Status::NotFound, "no photo"@) && forall|
            j: int,
        |
            0 <= j < files.len() ==> !is_picture_of(#[trigger] files[j], id),
{
    law_picture_found(files, id, seq!['a'], Seq::<char>::empty());
}

} // verus!
