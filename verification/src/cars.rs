//! Cars: their records and the list of them.
use crate::failure;
use crate::files;
use crate::files::{FileDoc, StoredFile};
use crate::json;
use crate::json::{Doc, Json};
use crate::order;
use crate::text;
use vstd::prelude::*;

verus! {

/// A car as it is stored: its plate, its record and its jobs.
pub struct CarFolder {
    pub plate: String,
    pub car: Json,
    pub jobs: Vec<StoredFile>,
}

/// What a stored car is.
pub struct CarDocs {
    pub plate: Seq<char>,
    pub car: Doc,
    pub jobs: Seq<FileDoc>,
}

impl View for CarFolder {
    type V = CarDocs;

    open spec fn view(&self) -> CarDocs {
        CarDocs { plate: self.plate@, car: self.car@, jobs: files::file_docs(self.jobs@) }
    }
}

/// The status of a job. A record from before there were statuses has
/// `finished` where its flag says so, and is open otherwise.
pub open spec fn status_of(job: Doc, finished: Seq<char>) -> Seq<char> {
    match job.text_at("status"@) {
        Some(s) => s,
        None => if job.flag_at("finished"@) {
            finished
        } else {
            "open"@
        },
    }
}

pub fn job_status(job: &Json, finished: &str) -> (r: String)
    ensures
        r@ == status_of(job@, finished@),
{
    match job.text_at("status") {
        Some(s) => s.to_owned(),
        None => {
            if job.flag_at("finished") {
                finished.to_owned()
            } else {
                "open".to_owned()
            }
        },
    }
}

/// Whether a job with this status needs no more work.
pub open spec fn is_over(status: Seq<char>) -> bool {
    let s = text::lowered(status);
    s == "work_done"@ || s == "closed"@ || s == "finished"@
}

fn over(status: &str) -> (r: bool)
    ensures
        r == is_over(status@),
{
    let s = text::lower(status);
    text::same(s.as_str(), "work_done") || text::same(s.as_str(), "closed") || text::same(
        s.as_str(),
        "finished",
    )
}

/// The job that needs work and was written last, with its status; of two
/// written at once, the later in the list.
pub open spec fn latest_open(jobs: Seq<FileDoc>) -> Option<(u64, Seq<char>)>
    decreases jobs.len(),
{
    if jobs.len() == 0 {
        None
    } else {
        let before = latest_open(jobs.drop_last());
        let status = status_of(jobs.last().doc, "closed"@);
        let ms = jobs.last().saved_ms;
        let newer = match before {
            Some(b) => ms >= b.0,
            None => true,
        };
        if !is_over(status) && newer {
            Some((ms, status))
        } else {
            before
        }
    }
}

/// The status to show for a car: that of the job that needs work.
pub open spec fn open_status(jobs: Seq<FileDoc>) -> Option<Seq<char>> {
    match latest_open(jobs) {
        Some(b) => Some(b.1),
        None => None,
    }
}

/// A car as it stands in the list.
pub open spec fn car_summary(c: CarDocs) -> Doc {
    Doc::object().with("plate"@, Doc::Str(c.plate)).with(
        "make"@,
        Doc::Str(c.car.text_in("make"@)),
    ).with("model"@, Doc::Str(c.car.text_in("model"@))).with(
        "customer_name"@,
        Doc::Str(c.car.text_in("customer_name"@)),
    ).with("customer_phone"@, Doc::Str(c.car.text_in("customer_phone"@))).with(
        "fuel_type"@,
        Doc::Str(c.car.text_or("fuel_type"@, "unknown"@)),
    ).with("job_count"@, Doc::num(c.jobs.len() as int)).with(
        "last_job_ms"@,
        Doc::num(files::last_saved(c.jobs) as int),
    ).with("photo"@, Doc::maybe_text(c.car.text_at("photo"@))).with(
        "photo_updated_ms"@,
        Doc::num(c.car.whole_or("photo_updated_ms"@, 0) as int),
    ).with("open_status"@, Doc::maybe_text(open_status(c.jobs)))
}

pub open spec fn car_docs(v: Seq<CarFolder>) -> Seq<CarDocs> {
    v.map_values(|c: CarFolder| c@)
}

/// The list of cars: those with the latest work come first, those without a
/// job last.
pub open spec fn cars_answer(cars: Seq<CarDocs>) -> Doc {
    failure::listing(
        order::ranked(
            cars.map_values(|c: CarDocs| car_summary(c)),
            order::newest_first("last_job_ms"@),
        ),
    )
}

/// When the last job was written, and the status to show.
fn job_activity(jobs: &Vec<StoredFile>) -> (r: (u64, Option<String>))
    ensures
        r.0 == files::last_saved(files::file_docs(jobs@)),
        text::opt_text(r.1) == open_status(files::file_docs(jobs@)),
{
    let ghost all = files::file_docs(jobs@);
    let mut last: u64 = 0;
    let mut open: Option<String> = None;
    let mut open_ms: u64 = 0;
    let mut i: usize = 0;
    while i < jobs.len()
        invariant
            i <= jobs@.len(),
            all == files::file_docs(jobs@),
            last == files::last_saved(all.take(i as int)),
            text::opt_text(open) == open_status(all.take(i as int)),
            open_ms == match latest_open(all.take(i as int)) {
                Some(b) => b.0,
                None => 0,
            },
        decreases jobs@.len() - i,
    {
        assert(all.take(i + 1).drop_last() =~= all.take(i as int));
        assert(all.take(i + 1).last() == jobs@[i as int]@);
        let ms = jobs[i].saved_ms;
        if ms > last {
            last = ms;
        }
        let status = job_status(&jobs[i].doc, "closed");
        if !over(status.as_str()) && ms >= open_ms {
            open_ms = ms;
            open = Some(status);
        }
        i = i + 1;
    }
    assert(all.take(i as int) =~= all);
    (last, open)
}

/// A car as it stands in the list.
pub fn summarize_car(c: &CarFolder) -> (r: Json)
    ensures
        r@ == car_summary(c@),
{
    let (last, open) = job_activity(&c.jobs);
    let open_json = match open {
        Some(s) => Json::of_text(s.as_str()),
        None => Json::Null,
    };
    Json::object().with_text("plate", c.plate.as_str()).with_text(
        "make",
        c.car.text_in("make").as_str(),
    ).with_text("model", c.car.text_in("model").as_str()).with_text(
        "customer_name",
        c.car.text_in("customer_name").as_str(),
    ).with_text("customer_phone", c.car.text_in("customer_phone").as_str()).with_text(
        "fuel_type",
        c.car.text_or("fuel_type", "unknown").as_str(),
    ).with("job_count", Json::of_u64(c.jobs.len() as u64)).with(
        "last_job_ms",
        Json::of_u64(last),
    ).with("photo", Json::maybe_text(c.car.text_at("photo"))).with(
        "photo_updated_ms",
        Json::of_u64(c.car.whole_or("photo_updated_ms", 0)),
    ).with("open_status", open_json)
}

/// The list of cars.
pub fn list_cars(cars: &Vec<CarFolder>) -> (r: Json)
    ensures
        r@ == cars_answer(car_docs(cars@)),
{
    let ghost all = car_docs(cars@);
    let ghost row = |c: CarDocs| car_summary(c);
    let mut items: Vec<Json> = Vec::new();
    let mut i: usize = 0;
    while i < cars.len()
        invariant
            i <= cars@.len(),
            all == car_docs(cars@),
            row == (|c: CarDocs| car_summary(c)),
            json::docs(items@) == all.take(i as int).map_values(row),
        decreases cars@.len() - i,
    {
        let ghost before = items@;
        let item = summarize_car(&cars[i]);
        items.push(item);
        assert(json::docs(items@) =~= json::docs(before).push(item@));
        assert(json::docs(items@) =~= all.take(i + 1).map_values(row));
        i = i + 1;
    }
    assert(all.take(i as int) =~= all);
    failure::list_answer(order::sort_newest_first(items, "last_job_ms"))
}

/// The status shown for a car is never that of a job that is over.
pub proof fn law_open_status_in_flight(jobs: Seq<FileDoc>)
    ensures
        open_status(jobs) matches Some(s) ==> !is_over(s),
    decreases jobs.len(),
{
    if jobs.len() > 0 {
        law_open_status_in_flight(jobs.drop_last());
    }
}

/// No status is shown for a car exactly where all its jobs are over.
pub proof fn law_open_status_shown(jobs: Seq<FileDoc>)
    ensures
        open_status(jobs) is None <==> forall|i: int|
            0 <= i < jobs.len() ==> is_over(status_of((#[trigger] jobs[i]).doc, "closed"@)),
    decreases jobs.len(),
{
    if jobs.len() > 0 {
        let front = jobs.drop_last();
        law_open_status_shown(front);
        if open_status(jobs) is None {
            assert forall|i: int| 0 <= i < jobs.len() implies is_over(
                status_of((#[trigger] jobs[i]).doc, "closed"@),
            ) by {
                if i < front.len() {
                    assert(front[i] == jobs[i]);
                }
            }
        } else if open_status(front) is None {
            assert(!is_over(status_of(jobs[jobs.len() - 1].doc, "closed"@)));
        } else {
            let i = choose|i: int|
                0 <= i < front.len() && !is_over(status_of((#[trigger] front[i]).doc, "closed"@));
            assert(jobs[i] == front[i]);
        }
    }
}

/// The place of a car in the list rests on its jobs alone: an edit of its
/// record does not move it.
pub proof fn law_record_does_not_move(c: CarDocs, car: Doc)
    ensures
        car_summary(c).whole_or("last_job_ms"@, 0) == files::last_saved(c.jobs),
        car_summary(CarDocs { car, ..c }).whole_or("last_job_ms"@, 0) == car_summary(c).whole_or(
            "last_job_ms"@,
            0,
        ),
{
    lemma_summary_ms(c);
    lemma_summary_ms(CarDocs { car, ..c });
}

proof fn lemma_summary_ms(c: CarDocs)
    ensures
        car_summary(c).whole_or("last_job_ms"@, 0) == files::last_saved(c.jobs),
{
    reveal_strlit("last_job_ms");
    reveal_strlit("photo");
    reveal_strlit("photo_updated_ms");
    reveal_strlit("open_status");
    assert("last_job_ms"@.len() != "photo"@.len());
    assert("last_job_ms"@.len() != "photo_updated_ms"@.len());
    assert("last_job_ms"@[0] != "open_status"@[0]);
}

/// The record to store for a car: what was sent, with its plate and the time,
/// and with what the form does not hold kept from the record before.
pub open spec fn car_record(payload: Doc, existing: Doc, plate: Seq<char>, now: u64) -> Doc {
    let sent = payload.with("plate"@, Doc::Str(plate)).with("updated_ms"@, Doc::num(now as int)).keeping(
        existing,
        "photo"@,
    ).keeping(existing, "photo_updated_ms"@).keeping(existing, "created_ms"@).keeping(
        existing,
        "mpmoil_variant"@,
    );
    if sent.has("fuel_type"@) {
        sent
    } else {
        sent.with("fuel_type"@, Doc::Str(existing.text_or("fuel_type"@, "unknown"@)))
    }
}

pub fn upsert_car(payload: Json, existing: &Json, plate: &str, now: u64) -> (r: Json)
    ensures
        r@ == car_record(payload@, existing@, plate@, now),
{
    let sent = payload.with_text("plate", plate).with("updated_ms", Json::of_u64(now)).keeping(
        existing,
        "photo",
    ).keeping(existing, "photo_updated_ms").keeping(existing, "created_ms").keeping(
        existing,
        "mpmoil_variant",
    );
    if sent.has("fuel_type") {
        sent
    } else {
        sent.with_text("fuel_type", existing.text_or("fuel_type", "unknown").as_str())
    }
}

/// The answer to a car that was stored.
pub open spec fn car_stored(plate: Seq<char>) -> Doc {
    failure::done().with("plate"@, Doc::Str(plate))
}

pub fn car_answer(plate: &str) -> (r: Json)
    ensures
        r@ == car_stored(plate@),
{
    failure::ok_answer().with_text("plate", plate)
}

/// The names of the members that a stored car keeps where the form is silent.
pub open spec fn kept_member(k: Seq<char>) -> bool {
    k == "photo"@ || k == "photo_updated_ms"@ || k == "created_ms"@ || k == "mpmoil_variant"@
}

proof fn lemma_car_names()
    ensures
        forall|k: Seq<char>|
            kept_member(k) ==> k != "plate"@ && k != "updated_ms"@ && k != "fuel_type"@,
        "photo"@ != "photo_updated_ms"@,
        "photo"@ != "created_ms"@,
        "photo"@ != "mpmoil_variant"@,
        "photo_updated_ms"@ != "created_ms"@,
        "photo_updated_ms"@ != "mpmoil_variant"@,
        "created_ms"@ != "mpmoil_variant"@,
        "plate"@ != "updated_ms"@,
        "plate"@ != "fuel_type"@,
        "updated_ms"@ != "fuel_type"@,
{
    reveal_strlit("plate");
    reveal_strlit("updated_ms");
    reveal_strlit("fuel_type");
    reveal_strlit("photo");
    reveal_strlit("photo_updated_ms");
    reveal_strlit("created_ms");
    reveal_strlit("mpmoil_variant");
    assert("photo"@[1] != "plate"@[1]);
    assert("photo_updated_ms"@.len() == 16);
    assert("created_ms"@[0] != "updated_ms"@[0]);
    assert("mpmoil_variant"@.len() == 14);
}

/// Storing a car keeps the photo, the day it was first stored and its variant
/// where the form does not send them, and takes them from the form where it
/// does.
pub proof fn law_car_keeps(payload: Doc, existing: Doc, plate: Seq<char>, now: u64, k: Seq<char>)
    requires
        payload.is_object(),
        kept_member(k),
    ensures
        car_record(payload, existing, plate, now).get(k) == if payload.has(k) {
            payload.get(k)
        } else {
            existing.get(k)
        },
{
    lemma_car_names();
}

/// A stored car has a fuel type, its own plate and the time of storing.
pub proof fn law_car_complete(payload: Doc, existing: Doc, plate: Seq<char>, now: u64)
    requires
        payload.is_object(),
    ensures
        car_record(payload, existing, plate, now).has("fuel_type"@),
        car_record(payload, existing, plate, now).text_at("plate"@) == Some(plate),
        car_record(payload, existing, plate, now).whole_at("updated_ms"@) == Some(now),
{
    lemma_car_names();
}

/// No two of these names are the same.
proof fn lemma_summary_names()
    ensures
        "plate"@.len() == 5,
        "make"@.len() == 4,
        "model"@.len() == 5,
        "customer_name"@.len() == 13,
        "customer_phone"@.len() == 14,
        "fuel_type"@.len() == 9,
        "job_count"@.len() == 9,
        "last_job_ms"@.len() == 11,
        "photo"@.len() == 5,
        "photo_updated_ms"@.len() == 16,
        "open_status"@.len() == 11,
        "plate"@ != "model"@,
        "plate"@ != "photo"@,
        "model"@ != "photo"@,
        "fuel_type"@ != "job_count"@,
        "last_job_ms"@ != "open_status"@,
{
    reveal_strlit("plate");
    reveal_strlit("make");
    reveal_strlit("model");
    reveal_strlit("customer_name");
    reveal_strlit("customer_phone");
    reveal_strlit("fuel_type");
    reveal_strlit("job_count");
    reveal_strlit("last_job_ms");
    reveal_strlit("photo");
    reveal_strlit("photo_updated_ms");
    reveal_strlit("open_status");
    assert("plate"@[0] != "model"@[0]);
    assert("plate"@[1] != "photo"@[1]);
    assert("model"@[0] != "photo"@[0]);
    assert("fuel_type"@[0] != "job_count"@[0]);
    assert("last_job_ms"@[0] != "open_status"@[0]);
}

/// A job has the status that its record says. A record that says none has
/// the word for a finished job where its flag is set, and is open otherwise.
pub proof fn law_status(job: Doc, finished: Seq<char>, s: Seq<char>)
    ensures
        job.get("status"@) == Some(Doc::Str(s)) ==> status_of(job, finished) == s,
        job.text_at("status"@) is None && job.get("finished"@) == Some(Doc::Bool(true))
            ==> status_of(job, finished) == finished,
        job.text_at("status"@) is None && job.get("finished"@) != Some(Doc::Bool(true))
            ==> status_of(job, finished) == "open"@,
{
}

/// A job is over where its status, in small letters, is one of three words.
pub proof fn law_over(status: Seq<char>)
    ensures
        is_over(status) <==> seq!["work_done"@, "closed"@, "finished"@].contains(
            text::lowered(status),
        ),
{
    let words = seq!["work_done"@, "closed"@, "finished"@];
    assert(words[0] == "work_done"@ && words[1] == "closed"@ && words[2] == "finished"@);
}

/// Whether the job at a place needs work.
pub open spec fn in_flight(jobs: Seq<FileDoc>, i: int) -> bool {
    0 <= i < jobs.len() && !is_over(status_of(jobs[i].doc, "closed"@))
}

proof fn lemma_latest_open(jobs: Seq<FileDoc>) -> (r: int)
    ensures
        latest_open(jobs) is None <==> forall|j: int| !#[trigger] in_flight(jobs, j),
        latest_open(jobs) matches Some(b) ==> in_flight(jobs, r) && jobs[r].saved_ms == b.0
            && status_of(jobs[r].doc, "closed"@) == b.1 && forall|j: int| #[trigger]
            in_flight(jobs, j) ==> jobs[j].saved_ms <= jobs[r].saved_ms && (jobs[j].saved_ms
                == jobs[r].saved_ms ==> j <= r),
    decreases jobs.len(),
{
    if jobs.len() == 0 {
        0
    } else {
        let front = jobs.drop_last();
        let n = jobs.len() - 1;
        let before = lemma_latest_open(front);
        assert forall|j: int| #[trigger] in_flight(jobs, j) && j != n implies in_flight(front, j)
            && front[j] == jobs[j] by {}
        assert forall|j: int| #[trigger] in_flight(front, j) implies in_flight(jobs, j) && front[j]
            == jobs[j] by {}
        if latest_open(front) is Some {
            assert(in_flight(front, before));
        }
        let newer = match latest_open(front) {
            Some(b) => jobs.last().saved_ms >= b.0,
            None => true,
        };
        if in_flight(jobs, n) && newer {
            n
        } else {
            before
        }
    }
}

/// The status shown for a car is that of the job that was written last among
/// those that need work; of two written at once, of the later in the list.
pub proof fn law_open_status_is_latest(jobs: Seq<FileDoc>)
    ensures
        open_status(jobs) matches Some(s) ==> exists|i: int|
            {
                &&& 0 <= i < jobs.len()
                &&& status_of((#[trigger] jobs[i]).doc, "closed"@) == s
                &&& !is_over(s)
                &&& forall|j: int|
                    0 <= j < jobs.len() && !is_over(
                        status_of((#[trigger] jobs[j]).doc, "closed"@),
                    ) ==> jobs[j].saved_ms < jobs[i].saved_ms || (jobs[j].saved_ms
                        == jobs[i].saved_ms && j <= i)
            },
{
    let r = lemma_latest_open(jobs);
    if let Some(s) = open_status(jobs) {
        assert(in_flight(jobs, r));
        assert(status_of(jobs[r].doc, "closed"@) == s);
        assert forall|j: int|
            0 <= j < jobs.len() && !is_over(status_of((#[trigger] jobs[j]).doc, "closed"@)) implies jobs[j].saved_ms
            < jobs[r].saved_ms || (jobs[j].saved_ms == jobs[r].saved_ms && j <= r) by {
            assert(in_flight(jobs, j));
        }
    }
}

/// What the list says of a car under some name is what its record says under
/// the same name; the rest is its plate, its fuel, its jobs and its photo.
pub proof fn law_car_row(c: CarDocs, k: Seq<char>)
    ensures
        k == "make"@ || k == "model"@ || k == "customer_name"@ || k == "customer_phone"@
            ==> car_summary(c).text_at(k) == Some(c.car.text_in(k)),
        car_summary(c).text_at("plate"@) == Some(c.plate),
        car_summary(c).text_at("fuel_type"@) == Some(
            match c.car.text_at("fuel_type"@) {
                Some(s) => s,
                None => "unknown"@,
            },
        ),
        car_summary(c).get("job_count"@) == Some(Doc::num(c.jobs.len() as int)),
        car_summary(c).get("photo"@) == Some(
            match c.car.text_at("photo"@) {
                Some(s) => Doc::Str(s),
                None => Doc::Null,
            },
        ),
        car_summary(c).whole_at("photo_updated_ms"@) == Some(
            match c.car.whole_at("photo_updated_ms"@) {
                Some(n) => n,
                None => 0,
            },
        ),
        car_summary(c).get("open_status"@) == Some(
            match open_status(c.jobs) {
                Some(s) => Doc::Str(s),
                None => Doc::Null,
            },
        ),
{
    lemma_summary_names();
}

/// When a car was last worked on: no job of it was written later, and one
/// was written then, unless it has none.
pub proof fn law_last_work(c: CarDocs, j: int)
    requires
        0 <= j < c.jobs.len(),
    ensures
        car_summary(c).whole_at("last_job_ms"@) matches Some(ms) && c.jobs[j].saved_ms <= ms
            && exists|i: int| 0 <= i < c.jobs.len() && (#[trigger] c.jobs[i]).saved_ms == ms,
{
    lemma_summary_names();
    files::law_last_saved(c.jobs);
}

/// The list of cars holds each car once, and none before one that was worked
/// on later.
pub proof fn law_cars_listed(cars: Seq<CarDocs>)
    ensures
        cars_answer(cars).items_at("items"@) matches Some(v) && v.len() == cars.len()
            && v.to_multiset() == cars.map_values(|c: CarDocs| car_summary(c)).to_multiset() && forall|
            i: int,
            j: int,
        |
            0 <= i < j < v.len() ==> (#[trigger] v[i]).whole_or("last_job_ms"@, 0) >= (
            #[trigger] v[j]).whole_or("last_job_ms"@, 0),
{
    order::law_newest_first_whole(
        cars.map_values(|c: CarDocs| car_summary(c)),
        "last_job_ms"@,
    );
}

/// No two of these names are the same.
proof fn lemma_stored_names()
    ensures
        "plate"@.len() == 5,
        "updated_ms"@.len() == 10,
        "photo"@.len() == 5,
        "photo_updated_ms"@.len() == 16,
        "created_ms"@.len() == 10,
        "mpmoil_variant"@.len() == 14,
        "fuel_type"@.len() == 9,
        "plate"@ != "photo"@,
        "updated_ms"@ != "created_ms"@,
{
    reveal_strlit("plate");
    reveal_strlit("updated_ms");
    reveal_strlit("photo");
    reveal_strlit("photo_updated_ms");
    reveal_strlit("created_ms");
    reveal_strlit("mpmoil_variant");
    reveal_strlit("fuel_type");
    assert("plate"@[1] != "photo"@[1]);
    assert("updated_ms"@[0] != "created_ms"@[0]);
}

/// A car is stored as the form sends it: every member of the form but the
/// plate and the time stands in the record, the fuel too. A fuel that the form
/// does not send is that of the record before, or unknown.
pub proof fn law_car_takes_form(payload: Doc, existing: Doc, plate: Seq<char>, now: u64, k: Seq<char>)
    requires
        payload.is_object(),
    ensures
        payload.has(k) && k != "plate"@ && k != "updated_ms"@ ==> car_record(
            payload,
            existing,
            plate,
            now,
        ).get(k) == payload.get(k),
        !payload.has("fuel_type"@) ==> car_record(payload, existing, plate, now).text_at(
            "fuel_type"@,
        ) == Some(
            match existing.text_at("fuel_type"@) {
                Some(s) => s,
                None => "unknown"@,
            },
        ),
{
    lemma_stored_names();
}

/// A stored car says nothing but what the form sent, its plate, the time, its
/// fuel, and four things from the record before.
pub proof fn law_car_says_no_more(payload: Doc, existing: Doc, plate: Seq<char>, now: u64, k: Seq<char>)
    requires
        payload.is_object(),
        car_record(payload, existing, plate, now).has(k),
        !payload.has(k),
    ensures
        k == "plate"@ || k == "updated_ms"@ || k == "fuel_type"@ || (existing.has(k) && (k
            == "photo"@ || k == "photo_updated_ms"@ || k == "created_ms"@ || k
            == "mpmoil_variant"@)),
        k == "photo"@ || k == "photo_updated_ms"@ || k == "created_ms"@ || k == "mpmoil_variant"@
            ==> car_record(payload, existing, plate, now).get(k) == existing.get(k),
{
    lemma_stored_names();
}

/// What the form does not send of a car's photo, of the day it was first
/// stored and of its variant stays.
pub proof fn law_car_keeps_four(payload: Doc, existing: Doc, plate: Seq<char>, now: u64, k: Seq<char>)
    requires
        payload.is_object(),
        !payload.has(k),
        k == "photo"@ || k == "photo_updated_ms"@ || k == "created_ms"@ || k == "mpmoil_variant"@,
    ensures
        car_record(payload, existing, plate, now).get(k) == existing.get(k),
{
    lemma_stored_names();
}

/// What is answered to a car that was stored: its plate.
pub proof fn law_car_stored(plate: Seq<char>, k: Seq<char>)
    ensures
        car_stored(plate).get("ok"@) == Some(Doc::Bool(true)),
        car_stored(plate).text_at("plate"@) == Some(plate),
        car_stored(plate).has(k) ==> k == "ok"@ || k == "plate"@,
{
    reveal_strlit("ok");
    reveal_strlit("plate");
    assert("ok"@.len() == 2 && "plate"@.len() == 5);
}

} // verus!
