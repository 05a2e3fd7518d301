//! Jobs: the work done on a car, one record each.
use crate::cars;
use crate::digits;
use crate::engine;
use crate::failure;
use crate::files;
use crate::files::{FileDoc, StoredFile};
use crate::json;
use crate::json::{Doc, Json};
use crate::lists;
use crate::names;
use crate::order;
use crate::text;
use crate::workers;
use crate::workers::{WorkerDoc, WorkerFolder};
use vstd::prelude::*;

verus! {

/// The descriptions of the work, one after the other.
pub open spec fn work_summary(job: Doc) -> Seq<char> {
    match job.items_at("work"@) {
        Some(work) => text::joined(
            lists::picked(work, |w: Doc| w.text_at("description"@)),
            "; "@,
        ),
        None => Seq::<char>::empty(),
    }
}

/// A job as it stands in the list of a car.
pub open spec fn job_row(f: FileDoc) -> Doc {
    Doc::object().with("name"@, Doc::Str(f.name)).with("saved_ms"@, Doc::num(f.saved_ms as int)).with(
        "date_in"@,
        Doc::Str(f.doc.text_in("date_in"@)),
    ).with("time_in"@, Doc::Str(f.doc.text_in("time_in"@))).with(
        "time_out"@,
        Doc::Str(f.doc.text_in("time_out"@)),
    ).with("work_summary"@, Doc::Str(work_summary(f.doc))).with(
        "kilometrage"@,
        Doc::Str(f.doc.text_in("kilometrage"@)),
    ).with("status"@, Doc::Str(cars::status_of(f.doc, "finished"@)))
}

/// The list of the jobs of a car, the latest first.
pub open spec fn car_jobs_answer(jobs: Seq<FileDoc>) -> Doc {
    failure::listing(
        order::ranked(jobs.map_values(|f: FileDoc| job_row(f)), order::newest_first("saved_ms"@)),
    )
}

fn summarize_work(job: &Json) -> (r: String)
    ensures
        r@ == work_summary(job@),
{
    let work = match job.items_at("work") {
        Some(w) => w,
        None => return String::new(),
    };
    let ghost all = json::docs(work@);
    let ghost f = |w: Doc| w.text_at("description"@);
    let mut parts: Vec<String> = Vec::new();
    let mut i: usize = 0;
    assert(text::texts(parts@) =~= lists::picked(all.take(0), f));
    while i < work.len()
        invariant
            i <= work@.len(),
            all == json::docs(work@),
            f == (|w: Doc| w.text_at("description"@)),
            text::texts(parts@) == lists::picked(all.take(i as int), f),
        decreases work@.len() - i,
    {
        proof {
            lists::lemma_picked_step(all, i as int, f);
            assert(all[i as int] == work@[i as int]@);
        }
        if let Some(s) = work[i].text_at("description") {
            let ghost before = parts@;
            let part = s.to_owned();
            parts.push(part);
            assert(text::texts(parts@) =~= text::texts(before).push(part@));
        }
        i = i + 1;
    }
    assert(all.take(i as int) =~= all);
    text::join(&parts, "; ")
}

/// A job as it stands in the list of a car.
pub fn summarize_job(f: &StoredFile) -> (r: Json)
    ensures
        r@ == job_row(f@),
{
    Json::object().with_text("name", f.name.as_str()).with(
        "saved_ms",
        Json::of_u64(f.saved_ms),
    ).with_text("date_in", f.doc.text_in("date_in").as_str()).with_text(
        "time_in",
        f.doc.text_in("time_in").as_str(),
    ).with_text("time_out", f.doc.text_in("time_out").as_str()).with_text(
        "work_summary",
        summarize_work(&f.doc).as_str(),
    ).with_text("kilometrage", f.doc.text_in("kilometrage").as_str()).with_text(
        "status",
        cars::job_status(&f.doc, "finished").as_str(),
    )
}

/// The list of the jobs of a car.
pub fn list_car_jobs(jobs: &Vec<StoredFile>) -> (r: Json)
    ensures
        r@ == car_jobs_answer(files::file_docs(jobs@)),
{
    let ghost all = files::file_docs(jobs@);
    let ghost row = |f: FileDoc| job_row(f);
    let mut items: Vec<Json> = Vec::new();
    let mut i: usize = 0;
    while i < jobs.len()
        invariant
            i <= jobs@.len(),
            all == files::file_docs(jobs@),
            row == (|f: FileDoc| job_row(f)),
            json::docs(items@) == all.take(i as int).map_values(row),
        decreases jobs@.len() - i,
    {
        let ghost before = items@;
        let item = summarize_job(&jobs[i]);
        items.push(item);
        assert(json::docs(items@) =~= json::docs(before).push(item@));
        assert(json::docs(items@) =~= all.take(i + 1).map_values(row));
        i = i + 1;
    }
    assert(all.take(i as int) =~= all);
    failure::list_answer(order::sort_newest_first(items, "saved_ms"))
}

/// The number in the name of a job file: what stands between the plate with
/// an underscore and `.json`.
pub open spec fn job_number(plate: Seq<char>, name: Seq<char>) -> Option<u64> {
    if names::is_record(name) {
        match text::after_prefix(names::stem(name), plate + "_"@) {
            Some(rest) => digits::read_unsigned(rest),
            None => None,
        }
    } else {
        None
    }
}

/// The largest number of a job; zero where there is none.
pub open spec fn highest_job(plate: Seq<char>, files: Seq<Seq<char>>) -> u64
    decreases files.len(),
{
    if files.len() == 0 {
        0
    } else {
        let before = highest_job(plate, files.drop_last());
        match job_number(plate, files.last()) {
            Some(n) if n > before => n,
            _ => before,
        }
    }
}

/// The name of the job with that number.
pub open spec fn numbered_job(plate: Seq<char>, n: nat) -> Seq<char> {
    plate + "_"@ + digits::decimal(n)
}

/// The name of the next job: one more than the largest number so far. There
/// is none after the largest number of all.
pub open spec fn next_name(plate: Seq<char>, files: Seq<Seq<char>>) -> Option<Seq<char>> {
    if highest_job(plate, files) == u64::MAX {
        None
    } else {
        Some(numbered_job(plate, (highest_job(plate, files) + 1) as nat))
    }
}

proof fn lemma_highest(plate: Seq<char>, files: Seq<Seq<char>>, i: int)
    requires
        0 <= i < files.len(),
    ensures
        job_number(plate, files[i]) matches Some(n) ==> n <= highest_job(plate, files),
    decreases files.len(),
{
    if i < files.len() - 1 {
        lemma_highest(plate, files.drop_last(), i);
        assert(files.drop_last()[i] == files[i]);
    }
}

proof fn lemma_numbered_chars(plate: Seq<char>, n: u64)
    requires
        forall|i: int| 0 <= i < plate.len() ==> names::plate_char(#[trigger] plate[i]),
    ensures
        numbered_job(plate, n as nat).len() > 0,
        forall|i: int|
            0 <= i < numbered_job(plate, n as nat).len() ==> names::plate_char(
                #[trigger] numbered_job(plate, n as nat)[i],
            ),
{
    reveal_strlit("_");
    let name = numbered_job(plate, n as nat);
    let d = digits::decimal(n as nat);
    digits::lemma_decimal_digits(n as nat);
    assert forall|i: int| 0 <= i < name.len() implies names::plate_char(#[trigger] name[i]) by {
        if i < plate.len() {
            assert(name[i] == plate[i]);
        } else if i == plate.len() {
            assert(name[i] == "_"@[0]);
        } else {
            assert(name[i] == d[i - plate.len() - 1]);
            assert(digits::is_digit(d[i - plate.len() - 1]));
        }
    }
}

/// A name without a dot is kept in the file with `.json` behind it.
proof fn lemma_plain_record(name: Seq<char>)
    requires
        name.len() > 0,
        forall|i: int| 0 <= i < name.len() ==> names::plate_char(#[trigger] name[i]),
    ensures
        names::record_name(name) == name + ".json"@,
{
    reveal_strlit(".json");
    assert forall|i: int| 0 <= i < name.len() implies names::name_char(#[trigger] name[i]) by {
        assert(names::plate_char(name[i]));
    }
    names::lemma_safe_as_is(name);
    assert(vstd::utf8::is_ascii_chars(name));
    let low = text::all_small(name);
    if text::ends_with_spec(low, ".json"@) {
        assert(low.skip(low.len() - 5)[0] == ".json"@[0]);
        assert(low[low.len() - 5] == text::small(name[name.len() - 5]));
        assert(names::plate_char(name[name.len() - 5]));
    }
}

proof fn lemma_record_parts(name: Seq<char>)
    requires
        name.len() > 0,
    ensures
        names::is_record(name + ".json"@),
        names::stem(name + ".json"@) == name,
{
    reveal_strlit(".json");
    reveal_strlit("json");
    reveal_strlit("..");
    let file = name + ".json"@;
    assert(name.push('.') + "json"@ =~= file);
    names::lemma_dot_before(name, "json"@);
    assert(file.len() > 2);
    assert(file.take(name.len() as int) =~= name);
    assert(file.skip(name.len() as int + 1) =~= "json"@);
}

proof fn lemma_numbered_file(plate: Seq<char>, n: u64)
    requires
        forall|i: int| 0 <= i < plate.len() ==> names::plate_char(#[trigger] plate[i]),
    ensures
        names::record_name(numbered_job(plate, n as nat)) == numbered_job(plate, n as nat)
            + ".json"@,
        job_number(plate, numbered_job(plate, n as nat) + ".json"@) == Some(n),
{
    reveal_strlit("_");
    let name = numbered_job(plate, n as nat);
    let d = digits::decimal(n as nat);
    lemma_numbered_chars(plate, n);
    lemma_plain_record(name);
    lemma_record_parts(name);
    digits::law_number_read_back(n);
    let prefix = plate + "_"@;
    assert(name.take(prefix.len() as int) =~= prefix);
    assert(name.skip(prefix.len() as int) =~= d);
}

/// The next job has a name of its own: its file is not among those that are
/// there, and its number is above theirs.
pub proof fn law_next_job_is_new(plate: Seq<char>, files: Seq<Seq<char>>, i: int)
    requires
        forall|k: int| 0 <= k < plate.len() ==> names::plate_char(#[trigger] plate[k]),
        next_name(plate, files) is Some,
        0 <= i < files.len(),
    ensures
        files[i] != names::record_name(next_name(plate, files)->0),
        job_number(plate, files[i]) matches Some(n) ==> n < highest_job(plate, files) + 1,
        job_number(plate, names::record_name(next_name(plate, files)->0)) == Some(
            (highest_job(plate, files) + 1) as u64,
        ),
{
    lemma_numbered_file(plate, (highest_job(plate, files) + 1) as u64);
    lemma_highest(plate, files, i);
}

fn number_of_job(plate_prefix: &str, name: &str, plate: &str) -> (r: Option<u64>)
    requires
        plate_prefix@ == plate@ + "_"@,
    ensures
        r == job_number(plate@, name@),
{
    if !names::is_record_file(name) {
        return None;
    }
    match text::strip_prefix(names::file_stem(name).as_str(), plate_prefix) {
        Some(rest) => digits::parse_u64(rest.as_str()),
        None => None,
    }
}

/// The name of the next job, given the files that are there.
pub fn next_job_name(plate: &str, files: &Vec<String>) -> (r: Option<String>)
    ensures
        text::opt_text(r) == next_name(plate@, text::texts(files@)),
{
    let prefix = text::cat(plate, "_");
    let ghost all = text::texts(files@);
    let mut highest: u64 = 0;
    let mut i: usize = 0;
    while i < files.len()
        invariant
            i <= files@.len(),
            all == text::texts(files@),
            prefix@ == plate@ + "_"@,
            highest == highest_job(plate@, all.take(i as int)),
        decreases files@.len() - i,
    {
        assert(all.take(i + 1).drop_last() =~= all.take(i as int));
        assert(all.take(i + 1).last() == files@[i as int]@);
        if let Some(n) = number_of_job(prefix.as_str(), files[i].as_str(), plate) {
            if n > highest {
                highest = n;
            }
        }
        i = i + 1;
    }
    assert(all.take(i as int) =~= all);
    if highest == u64::MAX {
        return None;
    }
    Some(text::cat(prefix.as_str(), digits::number_text((highest + 1) as u128).as_str()))
}

/// The file of a job that is saved under that name, where the form gives none.
pub open spec fn job_file(payload: Doc, suggested: Seq<char>) -> Seq<char> {
    names::record_name(payload.text_or("file_name"@, suggested))
}

/// The record of a job that is saved.
pub open spec fn job_record(payload: Doc, plate: Seq<char>, file: Seq<char>) -> Doc {
    payload.with("plate"@, Doc::Str(plate)).with("file_name"@, Doc::Str(file))
}

/// The file and the record of a job that is saved, given the files that are
/// there. Nothing is saved where the numbers of jobs are used up.
pub fn save_car_job(payload: Json, plate: &str, files: &Vec<String>) -> (r: Option<(String, Json)>)
    ensures
        match (r, next_name(plate@, text::texts(files@))) {
            (Some(saved), Some(suggested)) => saved.0@ == job_file(payload@, suggested) && saved.1@
                == job_record(payload@, plate@, job_file(payload@, suggested)),
            (None, None) => true,
            _ => false,
        },
        match r {
            Some(saved) => job_saved(payload@, plate@, text::texts(files@)) == Some(
                (saved.0@, saved.1@),
            ),
            None => job_saved(payload@, plate@, text::texts(files@)) is None,
        },
{
    let suggested = match next_job_name(plate, files) {
        Some(s) => s,
        None => return None,
    };
    let file = names::record_file(payload.text_or("file_name", suggested.as_str()).as_str());
    let record = payload.with_text("plate", plate).with_text("file_name", file.as_str());
    Some((file, record))
}

/// A job is saved as it was sent, but for its plate and the name of its file,
/// which are those under which it is kept.
pub proof fn law_job_saved_as_sent(payload: Doc, plate: Seq<char>, file: Seq<char>, k: Seq<char>)
    requires
        payload.is_object(),
    ensures
        k != "plate"@ && k != "file_name"@ ==> job_record(payload, plate, file).get(k)
            == payload.get(k),
        job_record(payload, plate, file).text_at("plate"@) == Some(plate),
        job_record(payload, plate, file).text_at("file_name"@) == Some(file),
{
    reveal_strlit("plate");
    reveal_strlit("file_name");
    assert("plate"@.len() == 5 && "file_name"@.len() == 9);
}

/// A member of the vehicle that a job names.
pub open spec fn vehicle_text(job: Doc, k: Seq<char>, other: Seq<char>) -> Seq<char> {
    match job.get("vehicle"@) {
        Some(v) => v.text_or(k, other),
        None => other,
    }
}

pub fn text_of_vehicle(job: &Json, k: &str, other: &str) -> (r: String)
    ensures
        r@ == vehicle_text(job@, k@, other@),
{
    match job.get("vehicle") {
        Some(v) => v.text_or(k, other),
        None => other.to_owned(),
    }
}

/// The record of a car that is first heard of through a job.
pub open spec fn car_from_job(job: Doc, plate: Seq<char>, source: Seq<char>, now: u64) -> Doc {
    let none = Seq::<char>::empty();
    Doc::object().with("plate"@, Doc::Str(plate)).with(
        "reg_no"@,
        Doc::Str(vehicle_text(job, "reg_no"@, plate)),
    ).with("make"@, Doc::Str(vehicle_text(job, "make"@, none))).with(
        "model"@,
        Doc::Str(vehicle_text(job, "model"@, none)),
    ).with("customer_name"@, Doc::Str(job.text_in("customer_name"@))).with(
        "customer_phone"@,
        Doc::Str(job.text_in("customer_phone"@)),
    ).with("created_ms"@, Doc::num(now as int)).with("updated_ms"@, Doc::num(now as int)).with(
        "source"@,
        Doc::Str(source),
    )
}

pub fn start_car(job: &Json, plate: &str, source: &str, now: u64) -> (r: Json)
    ensures
        r@ == car_from_job(job@, plate@, source@, now),
{
    let none = String::new();
    assert(none@ =~= Seq::<char>::empty());
    Json::object().with_text("plate", plate).with_text(
        "reg_no",
        text_of_vehicle(job, "reg_no", plate).as_str(),
    ).with_text("make", text_of_vehicle(job, "make", none.as_str()).as_str()).with_text(
        "model",
        text_of_vehicle(job, "model", none.as_str()).as_str(),
    ).with_text("customer_name", job.text_in("customer_name").as_str()).with_text(
        "customer_phone",
        job.text_in("customer_phone").as_str(),
    ).with("created_ms", Json::of_u64(now)).with("updated_ms", Json::of_u64(now)).with_text(
        "source",
        source,
    )
}

/// The answer to a job that was saved.
pub open spec fn job_stored(file: Seq<char>, plate: Seq<char>) -> Doc {
    failure::done().with("file_name"@, Doc::Str(file)).with("plate"@, Doc::Str(plate))
}

pub fn job_answer(file: &str, plate: &str) -> (r: Json)
    ensures
        r@ == job_stored(file@, plate@),
{
    failure::ok_answer().with_text("file_name", file).with_text("plate", plate)
}

/// How many of some files hold a record.
pub open spec fn record_count(files: Seq<Seq<char>>) -> nat {
    files.filter(|n: Seq<char>| names::is_record(n)).len()
}

/// The number of all jobs, given the files in the directories of jobs.
pub fn count_all_jobs(files: &Vec<String>) -> (r: Json)
    ensures
        r@ == Doc::object().with("count"@, Doc::num(record_count(text::texts(files@)) as int)),
{
    let ghost all = text::texts(files@);
    let ghost keep = |n: Seq<char>| names::is_record(n);
    let mut total: usize = 0;
    let mut i: usize = 0;
    proof {
        lists::lemma_filter_none(keep);
        assert(all.take(0) =~= Seq::<Seq<char>>::empty());
    }
    while i < files.len()
        invariant
            i <= files@.len(),
            total <= i,
            all == text::texts(files@),
            keep == (|n: Seq<char>| names::is_record(n)),
            total == all.take(i as int).filter(keep).len(),
        decreases files@.len() - i,
    {
        proof {
            lists::lemma_filter_step(all, i as int, keep);
            assert(all[i as int] == files@[i as int]@);
        }
        if names::is_record_file(files[i].as_str()) {
            total = total + 1;
        }
        i = i + 1;
    }
    assert(all.take(i as int) =~= all);
    Json::object().with("count", Json::of_u64(total as u64))
}

/// A car with its jobs, and the recommendation of oil from which its engine
/// is read where the record does not say it.
pub struct CarJobs {
    pub plate: String,
    pub car: Json,
    pub recommendation: Json,
    pub jobs: Vec<StoredFile>,
}

pub struct CarJobsDoc {
    pub plate: Seq<char>,
    pub car: Doc,
    pub recommendation: Doc,
    pub jobs: Seq<FileDoc>,
}

impl View for CarJobs {
    type V = CarJobsDoc;

    open spec fn view(&self) -> CarJobsDoc {
        CarJobsDoc {
            plate: self.plate@,
            car: self.car@,
            recommendation: self.recommendation@,
            jobs: files::file_docs(self.jobs@),
        }
    }
}

pub open spec fn car_jobs_docs(v: Seq<CarJobs>) -> Seq<CarJobsDoc> {
    v.map_values(|c: CarJobs| c@)
}

/// What a record says, or what is computed where it says nothing.
pub open spec fn said_or(d: Doc, k: Seq<char>, computed: Seq<char>) -> Seq<char> {
    if d.text_in(k).len() > 0 {
        d.text_in(k)
    } else {
        computed
    }
}

/// What a row of the list of all jobs says of the car.
pub open spec fn car_columns(c: CarJobsDoc) -> Doc {
    Doc::object().with("plate"@, Doc::Str(c.plate)).with(
        "make"@,
        Doc::Str(c.car.text_in("make"@)),
    ).with("model"@, Doc::Str(c.car.text_in("model"@))).with(
        "customer_name"@,
        Doc::Str(c.car.text_in("customer_name"@)),
    ).with("customer_phone"@, Doc::Str(c.car.text_in("customer_phone"@))).with(
        "fuel_type"@,
        Doc::Str(c.car.text_or("fuel_type"@, "unknown"@)),
    ).with(
        "displacement"@,
        Doc::Str(
            said_or(
                c.car,
                "displacement"@,
                engine::displacement_of(engine::variant_name(c.car)),
            ),
        ),
    ).with(
        "engine_summary"@,
        Doc::Str(said_or(c.car, "engine_summary"@, engine::engine_summary(c.recommendation))),
    ).with("has_photo"@, Doc::Bool(text::trimmed(c.car.text_in("photo"@)).len() > 0)).with(
        "photo_updated_ms"@,
        Doc::num(c.car.whole_or("photo_updated_ms"@, 0) as int),
    )
}

/// A row of the list of all jobs.
pub open spec fn global_row(columns: Doc, f: FileDoc, workers: Seq<WorkerDoc>) -> Doc {
    columns.with("name"@, Doc::Str(f.name)).with("date_in"@, Doc::Str(f.doc.text_in("date_in"@))).with(
        "time_in"@,
        Doc::Str(f.doc.text_in("time_in"@)),
    ).with("time_out"@, Doc::Str(f.doc.text_in("time_out"@))).with(
        "saved_ms"@,
        Doc::num(f.saved_ms as int),
    ).with("last_active_ms"@, Doc::num(f.saved_ms as int)).with(
        "worker_id"@,
        Doc::Str(f.doc.text_in("worker_id"@)),
    ).with(
        "worker_name"@,
        Doc::Str(workers::job_worker(workers, f.doc.text_in("worker_id"@))),
    ).with("status"@, Doc::Str(cars::status_of(f.doc, "finished"@))).with(
        "kilometrage"@,
        Doc::Str(f.doc.text_in("kilometrage"@)),
    )
}

/// The rows for the jobs of some cars.
pub open spec fn global_rows(cars: Seq<CarJobsDoc>, workers: Seq<WorkerDoc>) -> Seq<Doc>
    decreases cars.len(),
{
    if cars.len() == 0 {
        Seq::<Doc>::empty()
    } else {
        let c = cars.last();
        global_rows(cars.drop_last(), workers) + c.jobs.map_values(
            |f: FileDoc| global_row(car_columns(c), f, workers),
        )
    }
}

/// The list of all jobs, the latest first.
pub open spec fn all_jobs_answer(cars: Seq<CarJobsDoc>, workers: Seq<WorkerDoc>) -> Doc {
    failure::listing(
        order::ranked(global_rows(cars, workers), order::newest_first("last_active_ms"@)),
    )
}

fn columns_of(c: &CarJobs) -> (r: Json)
    ensures
        r@ == car_columns(c@),
{
    let variant = engine::variant_name_of(&c.car);
    let recommendation = &c.recommendation;
    let read_engine = || -> (s: String)
        ensures
            s@ == engine::engine_summary(recommendation@),
        {
            engine::build_engine_summary(recommendation)
        };
    let summary = engine::json_str_or_else(&c.car, "engine_summary", read_engine);
    let variant_ref = &variant;
    let read_variant = || -> (s: String)
        ensures
            s@ == engine::displacement_of(variant_ref@),
        {
            engine::extract_displacement(variant_ref.as_str())
        };
    let displacement = engine::json_str_or_else(&c.car, "displacement", read_variant);
    let photo = !text::trim(c.car.text_in("photo").as_str()).as_str().is_empty();
    Json::object().with_text("plate", c.plate.as_str()).with_text(
        "make",
        c.car.text_in("make").as_str(),
    ).with_text("model", c.car.text_in("model").as_str()).with_text(
        "customer_name",
        c.car.text_in("customer_name").as_str(),
    ).with_text("customer_phone", c.car.text_in("customer_phone").as_str()).with_text(
        "fuel_type",
        c.car.text_or("fuel_type", "unknown").as_str(),
    ).with_text("displacement", displacement.as_str()).with_text(
        "engine_summary",
        summary.as_str(),
    ).with("has_photo", Json::Bool(photo)).with(
        "photo_updated_ms",
        Json::of_u64(c.car.whole_or("photo_updated_ms", 0)),
    )
}

fn row_of(columns: &Json, f: &StoredFile, staff: &Vec<WorkerFolder>) -> (r: Json)
    ensures
        r@ == global_row(columns@, f@, workers::worker_docs(staff@)),
{
    let worker_id = f.doc.text_in("worker_id");
    let worker_name = workers::job_worker_name(staff, worker_id.as_str());
    columns.clone().with_text("name", f.name.as_str()).with_text(
        "date_in",
        f.doc.text_in("date_in").as_str(),
    ).with_text("time_in", f.doc.text_in("time_in").as_str()).with_text(
        "time_out",
        f.doc.text_in("time_out").as_str(),
    ).with("saved_ms", Json::of_u64(f.saved_ms)).with(
        "last_active_ms",
        Json::of_u64(f.saved_ms),
    ).with_text("worker_id", worker_id.as_str()).with_text(
        "worker_name",
        worker_name.as_str(),
    ).with_text("status", cars::job_status(&f.doc, "finished").as_str()).with_text(
        "kilometrage",
        f.doc.text_in("kilometrage").as_str(),
    )
}

/// Adds the rows for the jobs of a car.
fn add_rows(items: &mut Vec<Json>, c: &CarJobs, staff: &Vec<WorkerFolder>)
    ensures
        json::docs(final(items)@) == json::docs(old(items)@) + c@.jobs.map_values(
            |f: FileDoc| global_row(car_columns(c@), f, workers::worker_docs(staff@)),
        ),
{
    let columns = columns_of(c);
    let ghost start = items@;
    let ghost crew = workers::worker_docs(staff@);
    let ghost row = |f: FileDoc| global_row(car_columns(c@), f, crew);
    let ghost all = files::file_docs(c.jobs@);
    let mut i: usize = 0;
    assert(json::docs(items@) =~= json::docs(start) + all.take(0).map_values(row));
    while i < c.jobs.len()
        invariant
            i <= c.jobs@.len(),
            columns@ == car_columns(c@),
            all == files::file_docs(c.jobs@),
            crew == workers::worker_docs(staff@),
            row == (|f: FileDoc| global_row(car_columns(c@), f, crew)),
            json::docs(items@) == json::docs(start) + all.take(i as int).map_values(row),
        decreases c.jobs@.len() - i,
    {
        let ghost before = items@;
        let item = row_of(&columns, &c.jobs[i], staff);
        items.push(item);
        assert(json::docs(items@) =~= json::docs(before).push(item@));
        assert(all.take(i + 1).map_values(row) =~= all.take(i as int).map_values(row).push(item@));
        assert(json::docs(items@) =~= json::docs(start) + all.take(i + 1).map_values(row));
        i = i + 1;
    }
    assert(all.take(i as int) =~= all);
    assert(row =~= (|f: FileDoc| global_row(car_columns(c@), f, workers::worker_docs(staff@))));
}

/// The list of all jobs.
pub fn list_all_jobs(cars: &Vec<CarJobs>, staff: &Vec<WorkerFolder>) -> (r: Json)
    ensures
        r@ == all_jobs_answer(car_jobs_docs(cars@), workers::worker_docs(staff@)),
{
    let ghost all = car_jobs_docs(cars@);
    let ghost crew = workers::worker_docs(staff@);
    let mut items: Vec<Json> = Vec::new();
    let mut i: usize = 0;
    assert(json::docs(items@) =~= global_rows(all.take(0), crew));
    while i < cars.len()
        invariant
            i <= cars@.len(),
            all == car_jobs_docs(cars@),
            crew == workers::worker_docs(staff@),
            json::docs(items@) == global_rows(all.take(i as int), crew),
        decreases cars@.len() - i,
    {
        assert(all.take(i + 1).drop_last() =~= all.take(i as int));
        assert(all.take(i + 1).last() == cars@[i as int]@);
        add_rows(&mut items, &cars[i], staff);
        i = i + 1;
    }
    assert(all.take(i as int) =~= all);
    failure::list_answer(order::sort_newest_first(items, "last_active_ms"))
}

/// No two of these names are the same.
proof fn lemma_job_row_names()
    ensures
        "name"@.len() == 4,
        "saved_ms"@.len() == 8,
        "date_in"@.len() == 7,
        "time_in"@.len() == 7,
        "time_out"@.len() == 8,
        "work_summary"@.len() == 12,
        "kilometrage"@.len() == 11,
        "status"@.len() == 6,
        "saved_ms"@ != "time_out"@,
        "date_in"@ != "time_in"@,
{
    reveal_strlit("name");
    reveal_strlit("saved_ms");
    reveal_strlit("date_in");
    reveal_strlit("time_in");
    reveal_strlit("time_out");
    reveal_strlit("work_summary");
    reveal_strlit("kilometrage");
    reveal_strlit("status");
    assert("saved_ms"@[0] != "time_out"@[0]);
    assert("date_in"@[0] != "time_in"@[0]);
}

/// No two of these names are the same.
proof fn lemma_global_names()
    ensures
        "plate"@.len() == 5,
        "make"@.len() == 4,
        "model"@.len() == 5,
        "customer_name"@.len() == 13,
        "customer_phone"@.len() == 14,
        "fuel_type"@.len() == 9,
        "displacement"@.len() == 12,
        "engine_summary"@.len() == 14,
        "has_photo"@.len() == 9,
        "photo_updated_ms"@.len() == 16,
        "name"@.len() == 4,
        "date_in"@.len() == 7,
        "time_in"@.len() == 7,
        "time_out"@.len() == 8,
        "saved_ms"@.len() == 8,
        "last_active_ms"@.len() == 14,
        "worker_id"@.len() == 9,
        "worker_name"@.len() == 11,
        "status"@.len() == 6,
        "kilometrage"@.len() == 11,
        "plate"@ != "model"@,
        "make"@ != "name"@,
        "customer_phone"@ != "engine_summary"@,
        "customer_phone"@ != "last_active_ms"@,
        "fuel_type"@ != "has_photo"@,
        "fuel_type"@ != "worker_id"@,
        "engine_summary"@ != "last_active_ms"@,
        "has_photo"@ != "worker_id"@,
        "date_in"@ != "time_in"@,
        "time_out"@ != "saved_ms"@,
        "worker_name"@ != "kilometrage"@,
{
    reveal_strlit("plate");
    reveal_strlit("make");
    reveal_strlit("model");
    reveal_strlit("customer_name");
    reveal_strlit("customer_phone");
    reveal_strlit("fuel_type");
    reveal_strlit("displacement");
    reveal_strlit("engine_summary");
    reveal_strlit("has_photo");
    reveal_strlit("photo_updated_ms");
    reveal_strlit("name");
    reveal_strlit("date_in");
    reveal_strlit("time_in");
    reveal_strlit("time_out");
    reveal_strlit("saved_ms");
    reveal_strlit("last_active_ms");
    reveal_strlit("worker_id");
    reveal_strlit("worker_name");
    reveal_strlit("status");
    reveal_strlit("kilometrage");
    assert("plate"@[0] != "model"@[0]);
    assert("make"@[0] != "name"@[0]);
    assert("customer_phone"@[0] != "engine_summary"@[0]);
    assert("customer_phone"@[0] != "last_active_ms"@[0]);
    assert("fuel_type"@[0] != "has_photo"@[0]);
    assert("fuel_type"@[0] != "worker_id"@[0]);
    assert("engine_summary"@[0] != "last_active_ms"@[0]);
    assert("has_photo"@[0] != "worker_id"@[0]);
    assert("date_in"@[0] != "time_in"@[0]);
    assert("time_out"@[0] != "saved_ms"@[0]);
    assert("worker_name"@[0] != "kilometrage"@[0]);
}

/// No two of these names are the same.
proof fn lemma_car_start_names()
    ensures
        "plate"@.len() == 5,
        "reg_no"@.len() == 6,
        "make"@.len() == 4,
        "model"@.len() == 5,
        "customer_name"@.len() == 13,
        "customer_phone"@.len() == 14,
        "created_ms"@.len() == 10,
        "updated_ms"@.len() == 10,
        "source"@.len() == 6,
        "plate"@ != "model"@,
        "reg_no"@ != "source"@,
        "created_ms"@ != "updated_ms"@,
{
    reveal_strlit("plate");
    reveal_strlit("reg_no");
    reveal_strlit("make");
    reveal_strlit("model");
    reveal_strlit("customer_name");
    reveal_strlit("customer_phone");
    reveal_strlit("created_ms");
    reveal_strlit("updated_ms");
    reveal_strlit("source");
    assert("plate"@[0] != "model"@[0]);
    assert("reg_no"@[0] != "source"@[0]);
    assert("created_ms"@[0] != "updated_ms"@[0]);
}

/// What the list of a car says of a job under some name is what its record
/// says under the same name; the rest is its file, when it was written, its
/// work and its status.
pub proof fn law_job_row(f: FileDoc, k: Seq<char>)
    ensures
        k == "date_in"@ || k == "time_in"@ || k == "time_out"@ || k == "kilometrage"@ ==> job_row(
            f,
        ).text_at(k) == Some(f.doc.text_in(k)),
        job_row(f).text_at("name"@) == Some(f.name),
        job_row(f).whole_at("saved_ms"@) == Some(f.saved_ms),
        job_row(f).text_at("status"@) == Some(cars::status_of(f.doc, "finished"@)),
        job_row(f).text_at("work_summary"@) == Some(work_summary(f.doc)),
{
    lemma_job_row_names();
}

/// The work of a job in one line: what each piece of work is described as,
/// with a semicolon between them; work that is not described is passed over.
pub proof fn law_work_summary(job: Doc, work: Seq<Doc>, w: Doc)
    requires
        job.is_object(),
    ensures
        work_summary(job.with("work"@, Doc::Array(Seq::<Doc>::empty()))).len() == 0,
        w.text_at("description"@) is None ==> work_summary(
            job.with("work"@, Doc::Array(work.push(w))),
        ) == work_summary(job.with("work"@, Doc::Array(work))),
        w.text_at("description"@) matches Some(s) ==> work_summary(
            job.with("work"@, Doc::Array(seq![w])),
        ) == s && ((exists|i: int|
            0 <= i < work.len() && (#[trigger] work[i]).text_at("description"@) is Some)
            ==> work_summary(job.with("work"@, Doc::Array(work.push(w)))) == work_summary(
            job.with("work"@, Doc::Array(work)),
        ) + "; "@ + s),
        job.items_at("work"@) is None ==> work_summary(job).len() == 0,
{
    let f = |w: Doc| w.text_at("description"@);
    let said = lists::picked(work, f);
    assert(work.push(w).drop_last() =~= work);
    assert(seq![w].drop_last() =~= Seq::<Doc>::empty());
    reveal_with_fuel(lists::picked, 2);
    if let Some(s) = w.text_at("description"@) {
        assert(lists::picked(seq![w], f) =~= seq![s]);
        assert(said.push(s).drop_last() =~= said);
        if exists|i: int| 0 <= i < work.len() && (#[trigger] work[i]).text_at("description"@) is Some {
            let i = choose|i: int|
                0 <= i < work.len() && (#[trigger] work[i]).text_at("description"@) is Some;
            lists::lemma_picked_has(work, f, i);
        }
    }
}

/// The list of the jobs of a car holds each once, and none before one that
/// was written later.
pub proof fn law_car_jobs_listed(jobs: Seq<FileDoc>)
    ensures
        car_jobs_answer(jobs).items_at("items"@) matches Some(v) && v.len() == jobs.len()
            && v.to_multiset() == jobs.map_values(|f: FileDoc| job_row(f)).to_multiset() && forall|
            i: int,
            j: int,
        |
            0 <= i < j < v.len() ==> (#[trigger] v[i]).whole_or("saved_ms"@, 0) >= (
            #[trigger] v[j]).whole_or("saved_ms"@, 0),
{
    order::law_newest_first_whole(jobs.map_values(|f: FileDoc| job_row(f)), "saved_ms"@);
}

/// Whether a row says of a car and of a job what their records say: under
/// each name what stands there under that name.
pub open spec fn row_tells(row: Doc, c: CarJobsDoc, f: FileDoc) -> bool {
    &&& row.text_at("plate"@) == Some(c.plate)
    &&& row.text_at("name"@) == Some(f.name)
    &&& row.whole_at("saved_ms"@) == Some(f.saved_ms)
    &&& row.whole_at("last_active_ms"@) == Some(f.saved_ms)
    &&& forall|k: Seq<char>|
        #![trigger row.text_at(k)]
        {
            &&& k == "make"@ || k == "model"@ || k == "customer_name"@ || k == "customer_phone"@
                ==> row.text_at(k) == Some(c.car.text_in(k))
            &&& k == "date_in"@ || k == "time_in"@ || k == "time_out"@ || k == "worker_id"@ || k
                == "kilometrage"@ ==> row.text_at(k) == Some(f.doc.text_in(k))
        }
}

/// What a row of the list of all jobs says under some name is what the record
/// of the car, or that of the job, says under the same name.
pub proof fn law_global_row(c: CarJobsDoc, f: FileDoc, workers: Seq<WorkerDoc>, k: Seq<char>)
    ensures
        k == "make"@ || k == "model"@ || k == "customer_name"@ || k == "customer_phone"@
            ==> global_row(car_columns(c), f, workers).text_at(k) == Some(c.car.text_in(k)),
        k == "date_in"@ || k == "time_in"@ || k == "time_out"@ || k == "worker_id"@ || k
            == "kilometrage"@ ==> global_row(car_columns(c), f, workers).text_at(k) == Some(
            f.doc.text_in(k),
        ),
        global_row(car_columns(c), f, workers).text_at("plate"@) == Some(c.plate),
        global_row(car_columns(c), f, workers).text_at("name"@) == Some(f.name),
        global_row(car_columns(c), f, workers).whole_at("saved_ms"@) == Some(f.saved_ms),
        global_row(car_columns(c), f, workers).whole_at("last_active_ms"@) == Some(f.saved_ms),
{
    lemma_global_names();
}

/// What else a row of the list of all jobs says: the fuel, the engine and the
/// photo of the car, and the status and the worker of the job.
pub proof fn law_global_row_rest(c: CarJobsDoc, f: FileDoc, workers: Seq<WorkerDoc>)
    ensures
        ({
            let row = global_row(car_columns(c), f, workers);
            &&& row.text_at("fuel_type"@) == Some(
                match c.car.text_at("fuel_type"@) {
                    Some(s) => s,
                    None => "unknown"@,
                },
            )
            &&& row.text_at("status"@) == Some(cars::status_of(f.doc, "finished"@))
            &&& row.text_at("worker_name"@) == Some(
                if f.doc.text_in("worker_id"@).len() == 0 {
                    Seq::<char>::empty()
                } else {
                    workers::name_for(workers, f.doc.text_in("worker_id"@))
                },
            )
            &&& c.car.text_in("displacement"@).len() > 0 ==> row.text_at("displacement"@)
                == c.car.text_at("displacement"@)
            &&& c.car.text_in("displacement"@).len() == 0 ==> row.text_at("displacement"@) == Some(
                engine::displacement_of(engine::variant_name(c.car)),
            )
            &&& c.car.text_in("engine_summary"@).len() > 0 ==> row.text_at("engine_summary"@)
                == c.car.text_at("engine_summary"@)
            &&& c.car.text_in("engine_summary"@).len() == 0 ==> row.text_at("engine_summary"@)
                == Some(engine::engine_summary(c.recommendation))
            &&& row.get("has_photo"@) == Some(
                Doc::Bool(text::trimmed(c.car.text_in("photo"@)).len() > 0),
            )
            &&& row.whole_at("photo_updated_ms"@) == Some(
                match c.car.whole_at("photo_updated_ms"@) {
                    Some(n) => n,
                    None => 0,
                },
            )
        }),
{
    lemma_global_names();
}

proof fn lemma_rows_from(cars: Seq<CarJobsDoc>, workers: Seq<WorkerDoc>, row: Doc)
    ensures
        global_rows(cars, workers).contains(row) ==> exists|a: int, b: int|
            #![trigger cars[a].jobs[b]]
            0 <= a < cars.len() && 0 <= b < cars[a].jobs.len() && row == global_row(
                car_columns(cars[a]),
                cars[a].jobs[b],
                workers,
            ),
    decreases cars.len(),
{
    if global_rows(cars, workers).contains(row) {
        let front = cars.drop_last();
        let c = cars.last();
        let n = cars.len() - 1;
        let own = c.jobs.map_values(|f: FileDoc| global_row(car_columns(c), f, workers));
        let before = global_rows(front, workers);
        let all = global_rows(cars, workers);
        let r = choose|r: int| 0 <= r < all.len() && all[r] == row;
        if r < before.len() {
            assert(before[r] == row);
            lemma_rows_from(front, workers, row);
            let (a, b) = choose|a: int, b: int|
                #![trigger front[a].jobs[b]]
                0 <= a < front.len() && 0 <= b < front[a].jobs.len() && row == global_row(
                    car_columns(front[a]),
                    front[a].jobs[b],
                    workers,
                );
            assert(cars[a] == front[a]);
            assert(cars[a].jobs[b] == front[a].jobs[b]);
        } else {
            let b = r - before.len();
            assert(own[b] == row);
            assert(cars[n].jobs[b] == c.jobs[b]);
        }
    }
}

proof fn lemma_rows_have(cars: Seq<CarJobsDoc>, workers: Seq<WorkerDoc>, a: int, b: int)
    requires
        0 <= a < cars.len(),
        0 <= b < cars[a].jobs.len(),
    ensures
        global_rows(cars, workers).contains(
            global_row(car_columns(cars[a]), cars[a].jobs[b], workers),
        ),
    decreases cars.len(),
{
    let front = cars.drop_last();
    let c = cars.last();
    let own = c.jobs.map_values(|f: FileDoc| global_row(car_columns(c), f, workers));
    let before = global_rows(front, workers);
    let all = global_rows(cars, workers);
    let row = global_row(car_columns(cars[a]), cars[a].jobs[b], workers);
    if a < front.len() {
        lemma_rows_have(front, workers, a, b);
        let r = choose|r: int| 0 <= r < before.len() && before[r] == row;
        assert(all[r] == row);
    } else {
        assert(own[b] == row);
        assert(all[before.len() + b] == row);
    }
}

pub open spec fn jobs_of(cars: Seq<CarJobsDoc>) -> nat
    decreases cars.len(),
{
    if cars.len() == 0 {
        0
    } else {
        jobs_of(cars.drop_last()) + cars.last().jobs.len()
    }
}

proof fn lemma_rows_len(cars: Seq<CarJobsDoc>, workers: Seq<WorkerDoc>)
    ensures
        global_rows(cars, workers).len() == jobs_of(cars),
    decreases cars.len(),
{
    if cars.len() > 0 {
        lemma_rows_len(cars.drop_last(), workers);
    }
}

/// The list of all jobs has as many rows as there are jobs, none before one
/// that was written later. Every row tells of a car and a job of it.
pub proof fn law_all_jobs_listed(cars: Seq<CarJobsDoc>, workers: Seq<WorkerDoc>, r: int)
    ensures
        all_jobs_answer(cars, workers).items_at("items"@) matches Some(v) && v.len() == jobs_of(cars)
            && (0 <= r < v.len() ==> exists|a: int, b: int|
            #![trigger cars[a].jobs[b]]
            0 <= a < cars.len() && 0 <= b < cars[a].jobs.len() && row_tells(
                v[r],
                cars[a],
                cars[a].jobs[b],
            )) && forall|i: int, j: int|
            0 <= i < j < v.len() ==> (#[trigger] v[i]).whole_or("last_active_ms"@, 0) >= (
            #[trigger] v[j]).whole_or("last_active_ms"@, 0),
{
    let rows = global_rows(cars, workers);
    let le = order::newest_first("last_active_ms"@);
    let v = order::ranked(rows, le);
    order::law_newest_first_whole(rows, "last_active_ms"@);
    lemma_rows_len(cars, workers);
    if 0 <= r < v.len() {
        assert(v.contains(v[r]));
        order::lemma_ranked_holds(rows, le, v[r]);
        lemma_rows_from(cars, workers, v[r]);
        let (a, b) = choose|a: int, b: int|
            #![trigger cars[a].jobs[b]]
            0 <= a < cars.len() && 0 <= b < cars[a].jobs.len() && v[r] == global_row(
                car_columns(cars[a]),
                cars[a].jobs[b],
                workers,
            );
        lemma_row_tells(cars[a], cars[a].jobs[b], workers);
    }
}

proof fn lemma_row_tells(c: CarJobsDoc, f: FileDoc, workers: Seq<WorkerDoc>)
    ensures
        row_tells(global_row(car_columns(c), f, workers), c, f),
{
    let row = global_row(car_columns(c), f, workers);
    assert forall|k: Seq<char>|
        #![trigger row.text_at(k)]
        {
            &&& k == "make"@ || k == "model"@ || k == "customer_name"@ || k == "customer_phone"@
                ==> row.text_at(k) == Some(c.car.text_in(k))
            &&& k == "date_in"@ || k == "time_in"@ || k == "time_out"@ || k == "worker_id"@ || k
                == "kilometrage"@ ==> row.text_at(k) == Some(f.doc.text_in(k))
        } by {
        law_global_row(c, f, workers, k);
    }
    law_global_row(c, f, workers, "make"@);
}

/// Whether one of some rows tells of a job of a car.
pub open spec fn some_row_tells(rows: Seq<Doc>, c: CarJobsDoc, f: FileDoc) -> bool {
    exists|r: int| 0 <= r < rows.len() && row_tells(#[trigger] rows[r], c, f)
}

/// Every job of every car has a row in the list of all jobs.
pub proof fn law_every_job_listed(cars: Seq<CarJobsDoc>, workers: Seq<WorkerDoc>, a: int, b: int)
    requires
        0 <= a < cars.len(),
        0 <= b < cars[a].jobs.len(),
    ensures
        all_jobs_answer(cars, workers).items_at("items"@) matches Some(v) && some_row_tells(
            v,
            cars[a],
            cars[a].jobs[b],
        ),
{
    let rows = global_rows(cars, workers);
    let le = order::newest_first("last_active_ms"@);
    let v = order::ranked(rows, le);
    let row = global_row(car_columns(cars[a]), cars[a].jobs[b], workers);
    lemma_rows_have(cars, workers, a, b);
    order::lemma_ranked_holds(rows, le, row);
    lemma_row_tells(cars[a], cars[a].jobs[b], workers);
    assert(all_jobs_answer(cars, workers).items_at("items"@) == Some(v));
    let r = choose|r: int| 0 <= r < v.len() && v[r] == row;
    assert(v[r] == row);
    assert(row_tells(v[r], cars[a], cars[a].jobs[b]));
    assert(some_row_tells(v, cars[a], cars[a].jobs[b]));
}

/// The number of a job is what stands in the name of its file between the
/// plate with an underscore and the ending.
pub proof fn law_job_number(plate: Seq<char>, n: u64)
    ensures
        job_number(plate, plate + "_"@ + digits::decimal(n as nat) + ".json"@) == Some(n),
{
    reveal_strlit("_");
    let d = digits::decimal(n as nat);
    let name = plate + "_"@ + d;
    digits::lemma_decimal_digits(n as nat);
    lemma_record_parts(name);
    digits::law_number_read_back(n);
    let prefix = plate + "_"@;
    assert(name.take(prefix.len() as int) =~= prefix);
    assert(name.skip(prefix.len() as int) =~= d);
}

proof fn lemma_highest_is(plate: Seq<char>, files: Seq<Seq<char>>)
    ensures
        highest_job(plate, files) == 0 || exists|i: int|
            0 <= i < files.len() && job_number(plate, #[trigger] files[i]) == Some(
                highest_job(plate, files),
            ),
    decreases files.len(),
{
    if files.len() > 0 {
        let front = files.drop_last();
        lemma_highest_is(plate, front);
        let m = highest_job(plate, files);
        if m != 0 {
            if m == highest_job(plate, front) {
                let i = choose|i: int|
                    0 <= i < front.len() && job_number(plate, #[trigger] front[i]) == Some(m);
                assert(files[i] == front[i]);
            } else {
                assert(job_number(plate, files[files.len() - 1]) == Some(m));
            }
        }
    }
}

/// The next job is named after its plate with the number after the largest
/// so far, or with one where there is none.
pub proof fn law_next_job_number(plate: Seq<char>, files: Seq<Seq<char>>, name: Seq<char>)
    requires
        next_name(plate, files) == Some(name),
    ensures
        exists|m: u64|
            {
                &&& name == plate + "_"@ + #[trigger] digits::decimal((m + 1) as nat)
                &&& forall|i: int|
                    0 <= i < files.len() ==> (job_number(plate, #[trigger] files[i]) matches Some(n)
                        ==> n <= m)
                &&& m == 0 || exists|i: int|
                    0 <= i < files.len() && job_number(plate, #[trigger] files[i]) == Some(m)
            },
{
    let m = highest_job(plate, files);
    lemma_highest_is(plate, files);
    assert forall|i: int| 0 <= i < files.len() implies (job_number(plate, #[trigger] files[i]) matches Some(n)
        ==> n <= m) by {
        lemma_highest(plate, files, i);
    }
    assert(name == plate + "_"@ + digits::decimal((m + 1) as nat));
}

/// A job is kept in the file that the form names, or else in the suggested
/// one.
pub proof fn law_job_file(payload: Doc, suggested: Seq<char>, s: Seq<char>)
    ensures
        payload.get("file_name"@) == Some(Doc::Str(s)) ==> job_file(payload, suggested)
            == names::record_name(s),
        payload.text_at("file_name"@) is None ==> job_file(payload, suggested)
            == names::record_name(suggested),
{
}

/// A car that is first heard of through a job has its make and model from the
/// vehicle that the job names, and its customer from the job.
pub proof fn law_started_car(
    job: Doc,
    vehicle: Doc,
    plate: Seq<char>,
    source: Seq<char>,
    now: u64,
    k: Seq<char>,
)
    requires
        job.get("vehicle"@) == Some(vehicle),
    ensures
        k == "make"@ || k == "model"@ ==> car_from_job(job, plate, source, now).text_at(k) == Some(
            vehicle.text_in(k),
        ),
        k == "customer_name"@ || k == "customer_phone"@ ==> car_from_job(
            job,
            plate,
            source,
            now,
        ).text_at(k) == Some(job.text_in(k)),
        car_from_job(job, plate, source, now).text_at("reg_no"@) == Some(
            match vehicle.text_at("reg_no"@) {
                Some(s) => s,
                None => plate,
            },
        ),
        car_from_job(job, plate, source, now).text_at("plate"@) == Some(plate),
        car_from_job(job, plate, source, now).text_at("source"@) == Some(source),
        car_from_job(job, plate, source, now).whole_at("created_ms"@) == Some(now),
        car_from_job(job, plate, source, now).whole_at("updated_ms"@) == Some(now),
{
    lemma_car_start_names();
}

/// One more file is one more job where it ends in `.json`, and none where it
/// has another ending or no name before it.
pub proof fn law_jobs_counted(files: Seq<Seq<char>>, name: Seq<char>, f: Seq<char>)
    ensures
        record_count(Seq::<Seq<char>>::empty()) == 0,
        name.len() > 0 ==> record_count(files.push(name + ".json"@)) == record_count(files) + 1,
        !text::ends_with_spec(f, ".json"@) ==> record_count(files.push(f)) == record_count(files),
{
    let keep = |n: Seq<char>| names::is_record(n);
    lists::lemma_filter_none(keep);
    lists::lemma_filter_push(files, name + ".json"@, keep);
    lists::lemma_filter_push(files, f, keep);
    if name.len() > 0 {
        lemma_record_parts(name);
    }
    names::law_record_ending(f);
}

/// What is asked of the vehicle of a job is what its own text says, and
/// something else where it says nothing or the job names no vehicle.
pub proof fn law_vehicle_text(job: Doc, k: Seq<char>, other: Seq<char>, s: Seq<char>)
    ensures
        !job.has("vehicle"@) ==> vehicle_text(job, k, other) == other,
        job.has("vehicle"@) && job.get("vehicle"@)->0.get(k) == Some(Doc::Str(s)) ==> vehicle_text(
            job,
            k,
            other,
        ) == s,
        job.has("vehicle"@) && !(job.get("vehicle"@)->0.get(k) matches Some(Doc::Str(t)))
            ==> vehicle_text(job, k, other) == other,
{
}

/// What is answered to a job that was saved: its file and its plate.
pub proof fn law_job_stored(file: Seq<char>, plate: Seq<char>, k: Seq<char>)
    ensures
        job_stored(file, plate).get("ok"@) == Some(Doc::Bool(true)),
        job_stored(file, plate).text_at("file_name"@) == Some(file),
        job_stored(file, plate).text_at("plate"@) == Some(plate),
        job_stored(file, plate).has(k) ==> k == "ok"@ || k == "file_name"@ || k == "plate"@,
{
    reveal_strlit("ok");
    reveal_strlit("file_name");
    reveal_strlit("plate");
    assert("ok"@.len() == 2 && "plate"@.len() == 5 && "file_name"@.len() == 9);
}

/// Only a file that is called by the plate, a bar and a number is a job with
/// that number.
pub proof fn law_job_number_only(plate: Seq<char>, name: Seq<char>, n: u64)
    requires
        job_number(plate, name) == Some(n),
    ensures
        exists|rest: Seq<char>|
            name == plate + seq!['_'] + rest + ".json"@ && #[trigger] digits::read_unsigned(rest)
                == Some(n),
{
    reveal_strlit("_");
    reveal_strlit(".json");
    assert("_"@ =~= seq!['_']);
    let stem = names::stem(name);
    let p = plate + "_"@;
    text::law_prefix(p, stem);
    let rest = text::after_prefix(stem, p)->0;
    names::law_record_ending(name);
    names::law_extension_splits(name);
    reveal_strlit("json");
    assert(".json"@ =~= seq!['.'] + "json"@);
    assert(name == stem + seq!['.'] + "json"@);
    assert(stem == plate + "_"@ + rest);
    assert(name =~= plate + seq!['_'] + rest + ".json"@);
    assert(digits::read_unsigned(rest) == Some(n));
}

/// There is a next number unless a file already has the last one.
pub proof fn law_next_job_exists(plate: Seq<char>, files: Seq<Seq<char>>)
    ensures
        next_name(plate, files) is None <==> exists|i: int|
            0 <= i < files.len() && job_number(plate, #[trigger] files[i]) == Some(u64::MAX),
    decreases files.len(),
{
    if files.len() > 0 {
        let front = files.drop_last();
        law_next_job_exists(plate, front);
        if next_name(plate, files) is None {
            if job_number(plate, files.last()) == Some(u64::MAX) {
                assert(job_number(plate, files[files.len() - 1]) == Some(u64::MAX));
            } else {
                let i = choose|i: int|
                    0 <= i < front.len() && job_number(plate, #[trigger] front[i]) == Some(u64::MAX);
                assert(files[i] == front[i]);
            }
        }
        if exists|i: int|
            0 <= i < files.len() && job_number(plate, #[trigger] files[i]) == Some(u64::MAX) {
            let i = choose|i: int|
                0 <= i < files.len() && job_number(plate, #[trigger] files[i]) == Some(u64::MAX);
            if i < front.len() {
                assert(front[i] == files[i]);
            }
        }
    }
}

/// A car that is first heard of through a job that names no vehicle is known by
/// its plate alone.
pub proof fn law_started_car_unnamed(
    job: Doc,
    plate: Seq<char>,
    source: Seq<char>,
    now: u64,
    k: Seq<char>,
)
    requires
        !job.has("vehicle"@),
    ensures
        ({
            let car = car_from_job(job, plate, source, now);
            &&& k == "make"@ || k == "model"@ ==> car.text_at(k) == Some(Seq::<char>::empty())
            &&& k == "customer_name"@ || k == "customer_phone"@ ==> car.text_at(k) == Some(
                job.text_in(k),
            )
            &&& car.text_at("reg_no"@) == Some(plate)
            &&& car.text_at("plate"@) == Some(plate)
            &&& car.text_at("source"@) == Some(source)
            &&& k == "created_ms"@ || k == "updated_ms"@ ==> car.whole_at(k) == Some(now)
        }),
{
    lemma_car_start_names();
}

/// What comes of saving a job: its file and its record.
pub open spec fn job_saved(payload: Doc, plate: Seq<char>, files: Seq<Seq<char>>) -> Option<
    (Seq<char>, Doc),
> {
    match next_name(plate, files) {
        Some(suggested) => Some(
            (
                job_file(payload, suggested),
                job_record(payload, plate, job_file(payload, suggested)),
            ),
        ),
        None => None,
    }
}

/// A job is saved under the name that was sent, or the next number of its
/// plate; the record names its plate and its file, and says what was sent.
pub proof fn law_job_saved(
    payload: Doc,
    plate: Seq<char>,
    files: Seq<Seq<char>>,
    s: Seq<char>,
    k: Seq<char>,
)
    requires
        payload.is_object(),
        next_name(plate, files) is Some,
    ensures
        job_saved(payload, plate, files) matches Some(p) && p.1.text_at("file_name"@) == Some(p.0)
            && p.1.text_at("plate"@) == Some(plate) && (k != "plate"@ && k != "file_name"@
            ==> p.1.get(k) == payload.get(k)) && (payload.text_at("file_name"@) == Some(s) ==> p.0
            == names::record_name(s)) && (payload.text_at("file_name"@) is None ==> p.0
            == names::record_name(next_name(plate, files)->0)),
{
    law_job_saved_as_sent(
        payload,
        plate,
        job_file(payload, next_name(plate, files)->0),
        k,
    );
}

} // verus!
