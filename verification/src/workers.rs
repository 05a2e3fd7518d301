//! Workers: their records, the list of them, and signing in.
use crate::failure;
use crate::failure::{fail, Failure, Status};
use crate::json;
use crate::json::{Doc, Json};
use crate::names;
use crate::order;
use crate::text;
use vstd::prelude::*;

verus! {

/// A worker as stored: the name of the directory and the record in it.
pub struct WorkerFolder {
    pub id: String,
    pub record: Json,
}

/// What a stored worker is.
pub struct WorkerDoc {
    pub id: Seq<char>,
    pub record: Doc,
}

impl View for WorkerFolder {
    type V = WorkerDoc;

    open spec fn view(&self) -> WorkerDoc {
        WorkerDoc { id: self.id@, record: self.record@ }
    }
}

pub open spec fn worker_docs(v: Seq<WorkerFolder>) -> Seq<WorkerDoc> {
    v.map_values(|w: WorkerFolder| w@)
}

/// The name to show for a worker: first and last name, or the id where both
/// are empty.
pub open spec fn shown_name(w: WorkerDoc) -> Seq<char> {
    let name = text::trimmed(
        text::trimmed(w.record.text_in("first_name"@)) + " "@ + text::trimmed(
            w.record.text_in("last_name"@),
        ),
    );
    if name.len() == 0 {
        w.id
    } else {
        name
    }
}

pub fn worker_name(w: &WorkerFolder) -> (r: String)
    ensures
        r@ == shown_name(w@),
{
    let first = text::trim(w.record.text_in("first_name").as_str());
    let last = text::trim(w.record.text_in("last_name").as_str());
    let name = text::trim(text::cat3(first.as_str(), " ", last.as_str()).as_str());
    if name.as_str().is_empty() {
        w.id.clone()
    } else {
        name
    }
}

/// The name to show for the worker of a job: nothing where the job has none,
/// the id where nobody has it.
pub open spec fn name_for(workers: Seq<WorkerDoc>, id: Seq<char>) -> Seq<char>
    decreases workers.len(),
{
    if workers.len() == 0 {
        id
    } else if workers.last().id == id {
        shown_name(workers.last())
    } else {
        name_for(workers.drop_last(), id)
    }
}

/// The name to show for the worker of a job.
pub open spec fn job_worker(workers: Seq<WorkerDoc>, id: Seq<char>) -> Seq<char> {
    if id.len() == 0 {
        Seq::<char>::empty()
    } else {
        name_for(workers, id)
    }
}

pub fn job_worker_name(workers: &Vec<WorkerFolder>, id: &str) -> (r: String)
    ensures
        r@ == job_worker(worker_docs(workers@), id@),
{
    if id.is_empty() {
        return String::new();
    }
    let ghost all = worker_docs(workers@);
    let mut i: usize = workers.len();
    assert(all.take(i as int) =~= all);
    while i > 0
        invariant
            i <= workers@.len(),
            id@.len() > 0,
            all == worker_docs(workers@),
            name_for(all, id@) == name_for(all.take(i as int), id@),
        decreases i,
    {
        i = i - 1;
        assert(all.take(i + 1).drop_last() =~= all.take(i as int));
        assert(all.take(i + 1).last() == workers@[i as int]@);
        if text::same(workers[i].id.as_str(), id) {
            return worker_name(&workers[i]);
        }
    }
    id.to_owned()
}

/// A worker as it stands in the list; the password does not.
pub open spec fn worker_row(w: WorkerDoc) -> Doc {
    let d = w.record;
    Doc::object().with("id"@, Doc::Str(w.id)).with(
        "first_name"@,
        Doc::Str(d.text_in("first_name"@)),
    ).with("last_name"@, Doc::Str(d.text_in("last_name"@))).with(
        "patronymic"@,
        Doc::Str(d.text_in("patronymic"@)),
    ).with("phone"@, Doc::Str(d.text_in("phone"@))).with(
        "photo"@,
        Doc::maybe_text(d.text_at("photo"@)),
    ).with("photo_updated_ms"@, Doc::num(d.whole_or("photo_updated_ms"@, 0) as int)).with(
        "created_ms"@,
        Doc::num(d.whole_or("created_ms"@, 0) as int),
    ).with("updated_ms"@, Doc::num(d.whole_or("updated_ms"@, 0) as int)).with(
        "has_password"@,
        Doc::Bool(d.text_in("password"@).len() > 0),
    )
}

pub fn read_worker_summary(w: &WorkerFolder) -> (r: Json)
    ensures
        r@ == worker_row(w@),
{
    let d = &w.record;
    let locked = !d.text_in("password").as_str().is_empty();
    Json::object().with_text("id", w.id.as_str()).with_text(
        "first_name",
        d.text_in("first_name").as_str(),
    ).with_text("last_name", d.text_in("last_name").as_str()).with_text(
        "patronymic",
        d.text_in("patronymic").as_str(),
    ).with_text("phone", d.text_in("phone").as_str()).with(
        "photo",
        Json::maybe_text(d.text_at("photo")),
    ).with("photo_updated_ms", Json::of_u64(d.whole_or("photo_updated_ms", 0))).with(
        "created_ms",
        Json::of_u64(d.whole_or("created_ms", 0)),
    ).with("updated_ms", Json::of_u64(d.whole_or("updated_ms", 0))).with(
        "has_password",
        Json::Bool(locked),
    )
}

/// The list of workers, the latest first.
pub open spec fn workers_answer(workers: Seq<WorkerDoc>) -> Doc {
    failure::listing(
        order::ranked(
            workers.map_values(|w: WorkerDoc| worker_row(w)),
            order::newest_first("created_ms"@),
        ),
    )
}

pub fn list_workers(workers: &Vec<WorkerFolder>) -> (r: Json)
    ensures
        r@ == workers_answer(worker_docs(workers@)),
{
    let ghost all = worker_docs(workers@);
    let ghost row = |w: WorkerDoc| worker_row(w);
    let mut items: Vec<Json> = Vec::new();
    let mut i: usize = 0;
    while i < workers.len()
        invariant
            i <= workers@.len(),
            all == worker_docs(workers@),
            row == (|w: WorkerDoc| worker_row(w)),
            json::docs(items@) == all.take(i as int).map_values(row),
        decreases workers@.len() - i,
    {
        let ghost before = items@;
        let item = read_worker_summary(&workers[i]);
        items.push(item);
        assert(json::docs(items@) =~= json::docs(before).push(item@));
        assert(json::docs(items@) =~= all.take(i + 1).map_values(row));
        i = i + 1;
    }
    assert(all.take(i as int) =~= all);
    failure::list_answer(order::sort_newest_first(items, "created_ms"))
}

/// The record of a new worker.
pub open spec fn new_worker(payload: Doc, id: Seq<char>, now: u64) -> Doc {
    payload.with("id"@, Doc::Str(id)).with("created_ms"@, Doc::num(now as int)).with(
        "updated_ms"@,
        Doc::num(now as int),
    )
}

pub fn create_worker(payload: Json, id: &str, now: u64) -> (r: Json)
    ensures
        r@ == new_worker(payload@, id@, now),
{
    payload.with_text("id", id).with("created_ms", Json::of_u64(now)).with(
        "updated_ms",
        Json::of_u64(now),
    )
}

/// The record of a worker with what was sent. The day of creation and the
/// photo are kept; a password that was not sent is empty.
pub open spec fn changed_worker(payload: Doc, existing: Doc, id: Seq<char>, now: u64) -> Doc {
    let sent = payload.with("id"@, Doc::Str(id)).with(
        "created_ms"@,
        Doc::num(existing.whole_or("created_ms"@, now) as int),
    ).with("updated_ms"@, Doc::num(now as int)).keeping(existing, "photo"@).keeping(
        existing,
        "photo_updated_ms"@,
    );
    if sent.has("password"@) {
        sent
    } else {
        sent.with("password"@, Doc::Str(Seq::<char>::empty()))
    }
}

/// The record to store for a worker that is changed; `existing` is what was
/// stored, where its directory is there.
pub fn update_worker(payload: Json, existing: Option<&Json>, id: &str, now: u64) -> (r: Result<
    Json,
    Failure,
>)
    ensures
        failure::outcome(r) == match existing {
            Some(e) => Ok(changed_worker(payload@, e@, id@, now)),
            None => Err((Status::NotFound, "worker not found"@)),
        },
        failure::outcome(r) == worker_changed(payload@, json::opt_doc(existing), id@, now),
{
    let existing = match existing {
        Some(e) => e,
        None => return Err(fail(Status::NotFound, "worker not found")),
    };
    let created = existing.whole_or("created_ms", now);
    let sent = payload.with_text("id", id).with("created_ms", Json::of_u64(created)).with(
        "updated_ms",
        Json::of_u64(now),
    ).keeping(existing, "photo").keeping(existing, "photo_updated_ms");
    if sent.has("password") {
        Ok(sent)
    } else {
        let empty = String::new();
        assert(empty@ =~= Seq::<char>::empty());
        Ok(sent.with_text("password", empty.as_str()))
    }
}

/// The directory whose worker signs in.
pub open spec fn login_dir(payload: Doc) -> Result<Seq<char>, (Status, Seq<char>)> {
    let id = text::trimmed(payload.text_in("worker_id"@));
    if id.len() == 0 {
        Err((Status::BadRequest, "worker_id required"@))
    } else {
        Ok(names::safe_name(id))
    }
}

/// The answer to a worker who signs in, given the record of that name.
pub open spec fn login_outcome(payload: Doc, record: Option<Doc>) -> Result<
    Doc,
    (Status, Seq<char>),
> {
    match login_dir(payload) {
        Err(e) => Err(e),
        Ok(id) => match record {
            Some(d) if d.text_in("password"@) == payload.text_in("password"@) => Ok(
                failure::done().with(
                    "worker"@,
                    Doc::object().with("id"@, Doc::Str(id)).with(
                        "first_name"@,
                        Doc::Str(d.text_in("first_name"@)),
                    ).with("last_name"@, Doc::Str(d.text_in("last_name"@))).with(
                        "patronymic"@,
                        Doc::Str(d.text_in("patronymic"@)),
                    ),
                ),
            ),
            _ => Err((Status::Unauthorized, "invalid credentials"@)),
        },
    }
}

/// The directory whose worker signs in.
pub fn auth_worker(payload: &Json) -> (r: Result<String, Failure>)
    ensures
        failure::text_outcome(r) == login_dir(payload@),
{
    let id = text::trim(payload.text_in("worker_id").as_str());
    if id.as_str().is_empty() {
        return Err(fail(Status::BadRequest, "worker_id required"));
    }
    Ok(names::sanitize_filename(id.as_str()))
}

/// The answer to a worker who signs in; `record` is what the directory of
/// that name holds, where it can be read.
pub fn auth_login(payload: &Json, record: Option<&Json>) -> (r: Result<Json, Failure>)
    ensures
        failure::outcome(r) == login_outcome(payload@, json::opt_doc(record)),
{
    let id = match auth_worker(payload) {
        Ok(id) => id,
        Err(f) => return Err(f),
    };
    let d = match record {
        Some(d) => d,
        None => return Err(fail(Status::Unauthorized, "invalid credentials")),
    };
    if !text::same(d.text_in("password").as_str(), payload.text_in("password").as_str()) {
        return Err(fail(Status::Unauthorized, "invalid credentials"));
    }
    let worker = Json::object().with_text("id", id.as_str()).with_text(
        "first_name",
        d.text_in("first_name").as_str(),
    ).with_text("last_name", d.text_in("last_name").as_str()).with_text(
        "patronymic",
        d.text_in("patronymic").as_str(),
    );
    Ok(failure::ok_answer().with("worker", worker))
}

/// Signing in succeeds exactly where a worker is named whose record is there
/// and holds the password that was sent. A wrong password and an unknown
/// worker get the same answer.
pub proof fn law_login(payload: Doc, record: Option<Doc>)
    ensures
        login_outcome(payload, record) is Ok <==> text::trimmed(payload.text_in("worker_id"@)).len()
            > 0 && record is Some && record->0.text_in("password"@) == payload.text_in("password"@),
        text::trimmed(payload.text_in("worker_id"@)).len() > 0 ==> (login_outcome(
            payload,
            record,
        ) is Err ==> login_outcome(payload, record) == login_outcome(payload, None)),
{
}

/// A worker who was created signs in with the password that was given.
pub proof fn law_new_worker_signs_in(payload: Doc, id: Seq<char>, now: u64, attempt: Doc)
    requires
        payload.is_object(),
        text::trimmed(attempt.text_in("worker_id"@)).len() > 0,
        attempt.text_in("password"@) == payload.text_in("password"@),
    ensures
        login_outcome(attempt, Some(new_worker(payload, id, now))) is Ok,
{
    reveal_strlit("password");
    reveal_strlit("id");
    reveal_strlit("created_ms");
    reveal_strlit("updated_ms");
    assert("password"@.len() == 8 && "id"@.len() == 2);
    assert("created_ms"@.len() == 10 && "updated_ms"@.len() == 10);
}

/// A worker in the list does not show a password.
pub proof fn law_row_hides_password(w: WorkerDoc)
    ensures
        !worker_row(w).has("password"@),
{
    reveal_strlit("password");
    reveal_strlit("id");
    reveal_strlit("first_name");
    reveal_strlit("last_name");
    reveal_strlit("patronymic");
    reveal_strlit("phone");
    reveal_strlit("photo");
    reveal_strlit("photo_updated_ms");
    reveal_strlit("created_ms");
    reveal_strlit("updated_ms");
    reveal_strlit("has_password");
    assert("password"@.len() == 8);
    assert("id"@.len() == 2 && "first_name"@.len() == 10 && "last_name"@.len() == 9);
    assert("patronymic"@.len() == 10 && "phone"@.len() == 5 && "photo"@.len() == 5);
    assert("photo_updated_ms"@.len() == 16 && "created_ms"@.len() == 10);
    assert("updated_ms"@.len() == 10 && "has_password"@.len() == 12);
}

/// A changed worker keeps the photo that the form did not send, and the day
/// it was created on.
pub proof fn law_worker_keeps(payload: Doc, existing: Doc, id: Seq<char>, now: u64)
    requires
        payload.is_object(),
    ensures
        !payload.has("photo"@) ==> changed_worker(payload, existing, id, now).get("photo"@)
            == existing.get("photo"@),
        existing.whole_at("created_ms"@) is Some ==> changed_worker(
            payload,
            existing,
            id,
            now,
        ).whole_at("created_ms"@) == existing.whole_at("created_ms"@),
{
    reveal_strlit("id");
    reveal_strlit("created_ms");
    reveal_strlit("updated_ms");
    reveal_strlit("photo");
    reveal_strlit("photo_updated_ms");
    reveal_strlit("password");
    assert("id"@.len() == 2 && "password"@.len() == 8 && "photo"@.len() == 5);
    assert("photo_updated_ms"@.len() == 16 && "created_ms"@.len() == 10);
    assert("created_ms"@[0] != "updated_ms"@[0] && "updated_ms"@.len() == 10);
}

/// No two of these names are the same.
proof fn lemma_worker_names()
    ensures
        "id"@.len() == 2,
        "first_name"@.len() == 10,
        "last_name"@.len() == 9,
        "patronymic"@.len() == 10,
        "phone"@.len() == 5,
        "photo"@.len() == 5,
        "photo_updated_ms"@.len() == 16,
        "created_ms"@.len() == 10,
        "updated_ms"@.len() == 10,
        "has_password"@.len() == 12,
        "password"@.len() == 8,
        "worker"@.len() == 6,
        "ok"@.len() == 2,
        "id"@ != "ok"@,
        "first_name"@ != "patronymic"@,
        "first_name"@ != "created_ms"@,
        "first_name"@ != "updated_ms"@,
        "patronymic"@ != "created_ms"@,
        "patronymic"@ != "updated_ms"@,
        "phone"@ != "photo"@,
        "created_ms"@ != "updated_ms"@,
{
    reveal_strlit("id");
    reveal_strlit("first_name");
    reveal_strlit("last_name");
    reveal_strlit("patronymic");
    reveal_strlit("phone");
    reveal_strlit("photo");
    reveal_strlit("photo_updated_ms");
    reveal_strlit("created_ms");
    reveal_strlit("updated_ms");
    reveal_strlit("has_password");
    reveal_strlit("password");
    reveal_strlit("worker");
    reveal_strlit("ok");
    assert("id"@[0] != "ok"@[0]);
    assert("first_name"@[0] != "patronymic"@[0]);
    assert("first_name"@[0] != "created_ms"@[0]);
    assert("first_name"@[0] != "updated_ms"@[0]);
    assert("patronymic"@[0] != "created_ms"@[0]);
    assert("patronymic"@[0] != "updated_ms"@[0]);
    assert("phone"@[3] != "photo"@[3]);
    assert("created_ms"@[0] != "updated_ms"@[0]);
}

/// The row of a worker says under each name what the record says under it.
pub proof fn law_worker_row(w: WorkerDoc, k: Seq<char>)
    ensures
        worker_row(w).text_at("id"@) == Some(w.id),
        k == "first_name"@ || k == "last_name"@ || k == "patronymic"@ || k == "phone"@
            ==> worker_row(w).text_at(k) == Some(w.record.text_in(k)),
        k == "photo_updated_ms"@ || k == "created_ms"@ || k == "updated_ms"@ ==> worker_row(
            w,
        ).whole_at(k) == Some(w.record.whole_or(k, 0)),
        worker_row(w).get("photo"@) == Some(
            match w.record.text_at("photo"@) {
                Some(s) => Doc::Str(s),
                None => Doc::Null,
            },
        ),
        worker_row(w).flag_at("has_password"@) <==> w.record.text_in("password"@).len() > 0,
        worker_row(w).get("has_password"@) is Some && worker_row(w).get("has_password"@)->0 is Bool,
{
    lemma_worker_names();
}

/// A worker who has a first and a last name is shown by both with one space
/// between them, and by one of them where there is no other.
pub proof fn law_shown_name(w: WorkerDoc, first: Seq<char>, last: Seq<char>)
    requires
        text::trimmed(w.record.text_in("first_name"@)) == first,
        text::trimmed(w.record.text_in("last_name"@)) == last,
    ensures
        first.len() > 0 && last.len() > 0 ==> shown_name(w) == first + seq![' '] + last,
        first.len() > 0 && last.len() == 0 ==> shown_name(w) == first,
        first.len() == 0 && last.len() > 0 ==> shown_name(w) == last,
        first.len() == 0 && last.len() == 0 ==> shown_name(w) == w.id,
{
    reveal_strlit(" ");
    let name = first + " "@ + last;
    text::law_trim_settles(w.record.text_in("first_name"@));
    text::law_trim_settles(w.record.text_in("last_name"@));
    text::law_white_space(' ');
    let (a, b) = text::law_trimmed(w.record.text_in("first_name"@));
    let (c, d) = text::law_trimmed(w.record.text_in("last_name"@));
    if first.len() > 0 && last.len() > 0 {
        assert(name[0] == first[0] && name.last() == last.last());
        text::law_trimmed_as_is(name);
        assert(name =~= first + seq![' '] + last);
    } else if first.len() > 0 {
        assert(name =~= first.push(' '));
        text::law_trim_drops_space(first, ' ');
        text::law_trimmed_as_is(first);
    } else if last.len() > 0 {
        assert(name =~= seq![' '] + last);
        text::law_trim_drops_space(last, ' ');
        text::law_trimmed_as_is(last);
    } else {
        assert(name =~= Seq::<char>::empty().push(' '));
        text::law_trim_drops_space(Seq::<char>::empty(), ' ');
    }
}

/// The worker of a job is shown by name; where nobody has the id, by the id;
/// a job without a worker shows nothing.
pub proof fn law_job_worker(workers: Seq<WorkerDoc>, id: Seq<char>, i: int)
    ensures
        job_worker(workers, Seq::<char>::empty()) == Seq::<char>::empty(),
        id.len() > 0 && 0 <= i < workers.len() && workers[i].id == id && (forall|j: int|
            i < j < workers.len() ==> (#[trigger] workers[j]).id != id) ==> job_worker(workers, id)
            == shown_name(workers[i]),
        id.len() > 0 && (forall|j: int|
            0 <= j < workers.len() ==> (#[trigger] workers[j]).id != id) ==> job_worker(workers, id)
            == id,
    decreases workers.len(),
{
    if workers.len() > 0 && workers.last().id != id {
        let front = workers.drop_last();
        law_job_worker(front, id, i);
        assert forall|j: int| 0 <= j < front.len() implies (#[trigger] front[j]) == workers[j] by {}
        if 0 <= i < workers.len() && workers[i].id == id {
            assert(front[i] == workers[i]);
        }
    } else if workers.len() > 0 {
        assert(workers[workers.len() - 1] == workers.last());
    }
}

/// The list of workers has a row for each, those made last first.
pub proof fn law_workers_listed(workers: Seq<WorkerDoc>)
    ensures
        workers_answer(workers).items_at("items"@) matches Some(v) && v.len() == workers.len()
            && v.to_multiset() == workers.map_values(|w: WorkerDoc| worker_row(w)).to_multiset()
            && forall|i: int, j: int|
            0 <= i < j < v.len() ==> (#[trigger] v[i]).whole_or("created_ms"@, 0) >= (
            #[trigger] v[j]).whole_or("created_ms"@, 0),
{
    order::law_newest_first_whole(
        workers.map_values(|w: WorkerDoc| worker_row(w)),
        "created_ms"@,
    );
}

/// A new worker is stored with what was sent, the id and the time.
pub proof fn law_new_worker(payload: Doc, id: Seq<char>, now: u64, k: Seq<char>)
    requires
        payload.is_object(),
    ensures
        new_worker(payload, id, now).text_at("id"@) == Some(id),
        new_worker(payload, id, now).whole_at("created_ms"@) == Some(now),
        new_worker(payload, id, now).whole_at("updated_ms"@) == Some(now),
        k != "id"@ && k != "created_ms"@ && k != "updated_ms"@ ==> new_worker(payload, id, now).get(
            k,
        ) == payload.get(k),
{
    lemma_worker_names();
}

/// A changed worker is stored with what was sent. Of the record that was there,
/// only the time of its making and the photo stay, where no other is sent; a
/// password that is not sent is empty.
pub proof fn law_changed_worker(payload: Doc, existing: Doc, id: Seq<char>, now: u64, k: Seq<char>)
    requires
        payload.is_object(),
    ensures
        ({
            let r = changed_worker(payload, existing, id, now);
            &&& r.text_at("id"@) == Some(id)
            &&& r.whole_at("updated_ms"@) == Some(now)
            &&& r.whole_at("created_ms"@) == Some(existing.whole_or("created_ms"@, now))
            &&& k != "id"@ && k != "created_ms"@ && k != "updated_ms"@ && payload.has(k) ==> r.get(k)
                == payload.get(k)
            &&& (k == "photo"@ || k == "photo_updated_ms"@) && !payload.has(k) ==> r.get(k)
                == existing.get(k)
            &&& !payload.has("password"@) ==> r.text_at("password"@) == Some(Seq::<char>::empty())
            &&& k != "id"@ && k != "created_ms"@ && k != "updated_ms"@ && k != "photo"@ && k
                != "photo_updated_ms"@ && k != "password"@ && !payload.has(k) ==> !r.has(k)
        }),
{
    lemma_worker_names();
}

/// What is answered to a worker who signs in: the id and the three names of
/// the record; otherwise what was wrong.
pub proof fn law_login_answer(payload: Doc, record: Doc, k: Seq<char>)
    ensures
        text::trimmed(payload.text_in("worker_id"@)).len() > 0 ==> login_dir(payload) == Ok::<
            Seq<char>,
            (Status, Seq<char>),
        >(names::safe_name(text::trimmed(payload.text_in("worker_id"@)))),
        text::trimmed(payload.text_in("worker_id"@)).len() == 0 ==> login_dir(payload) == Err::<
            Seq<char>,
            (Status, Seq<char>),
        >((Status::BadRequest, "worker_id required"@)),
        login_dir(payload) is Err ==> login_outcome(payload, Some(record)) == Err::<
            Doc,
            (Status, Seq<char>),
        >((Status::BadRequest, "worker_id required"@)),
        login_dir(payload) is Ok && record.text_in("password"@) != payload.text_in("password"@)
            ==> login_outcome(payload, Some(record)) == Err::<Doc, (Status, Seq<char>)>(
            (Status::Unauthorized, "invalid credentials"@),
        ),
        login_dir(payload) is Ok ==> login_outcome(payload, None) == Err::<
            Doc,
            (Status, Seq<char>),
        >((Status::Unauthorized, "invalid credentials"@)),
        login_outcome(payload, Some(record)) matches Ok(a) ==> a.flag_at("ok"@) && (a.get(
            "worker"@,
        ) matches Some(w) && w.text_at("id"@) == Some(
            names::safe_name(text::trimmed(payload.text_in("worker_id"@))),
        ) && (k == "first_name"@ || k == "last_name"@ || k == "patronymic"@ ==> w.text_at(k) == Some(
            record.text_in(k),
        )) && (w.has(k) ==> k == "id"@ || k == "first_name"@ || k == "last_name"@ || k
            == "patronymic"@)),
{
    lemma_worker_names();
}

/// What comes of changing a worker.
pub open spec fn worker_changed(
    payload: Doc,
    existing: Option<Doc>,
    id: Seq<char>,
    now: u64,
) -> Result<Doc, (Status, Seq<char>)> {
    match existing {
        Some(e) => Ok(changed_worker(payload, e, id, now)),
        None => Err((Status::NotFound, "worker not found"@)),
    }
}

/// A worker who is there is changed, and takes what was sent; one who is not is
/// not made.
pub proof fn law_worker_changed(
    payload: Doc,
    existing: Doc,
    id: Seq<char>,
    now: u64,
    k: Seq<char>,
)
    requires
        payload.is_object(),
    ensures
        worker_changed(payload, None, id, now) == Err::<Doc, (Status, Seq<char>)>(
            (Status::NotFound, "worker not found"@),
        ),
        worker_changed(payload, Some(existing), id, now) matches Ok(d) && d.text_at("id"@) == Some(id)
            && (k != "id"@ && k != "created_ms"@ && k != "updated_ms"@ && payload.has(k) ==> d.get(k)
            == payload.get(k)),
{
    lemma_worker_names();
}

} // verus!
