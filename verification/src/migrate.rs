//! Bringing records of earlier days up to date when the server starts.
use crate::files;
use crate::files::{FileDoc, StoredFile};
use crate::jobs;
use crate::json;
use crate::json::{Doc, Json};
use crate::lists;
use crate::names;
use crate::text;
use vstd::prelude::*;

verus! {

/// Whether a job was over in the words of earlier days: closed or finished,
/// or without a status and flagged as finished.
pub open spec fn was_over(job: Doc) -> bool {
    match job.text_at("status"@) {
        Some(s) => s == "closed"@ || s == "finished"@,
        None => job.flag_at("finished"@),
    }
}

/// Whether an event of a job is of that type.
pub open spec fn is_event(event: Doc, kind: Seq<char>) -> bool {
    event.text_at("type"@) == Some(kind)
}

pub open spec fn events_of(job: Doc) -> Seq<Doc> {
    match job.items_at("events"@) {
        Some(v) => v,
        None => Seq::<Doc>::empty(),
    }
}

/// Whether an event is among some.
pub open spec fn has_event(events: Seq<Doc>, kind: Seq<char>) -> bool {
    exists|i: int| 0 <= i < events.len() && is_event(#[trigger] events[i], kind)
}

/// How many events say that the job was closed.
pub open spec fn closings(events: Seq<Doc>) -> nat {
    events.filter(|e: Doc| is_event(e, "closed"@)).len()
}

/// An event that says that the job was closed says that the work is done.
pub open spec fn event_renamed(event: Doc) -> Doc {
    if is_event(event, "closed"@) {
        event.with("type"@, Doc::Str("work_done"@))
    } else {
        event
    }
}

/// Events with one word for the end of a job. Where the end is there already,
/// the closings are dropped; else they become the end.
pub open spec fn events_merged(events: Seq<Doc>) -> Seq<Doc> {
    if has_event(events, "work_done"@) {
        events.filter(|e: Doc| !is_event(e, "closed"@))
    } else {
        events.map_values(|e: Doc| event_renamed(e))
    }
}

/// A job whose status is one of today.
pub open spec fn status_merged(job: Doc) -> Doc {
    if was_over(job) {
        job.with("status"@, Doc::Str("work_done"@))
    } else {
        job
    }
}

/// A job whose events are those of today.
pub open spec fn timeline_merged(job: Doc) -> Doc {
    if closings(events_of(job)) > 0 {
        job.with("events"@, Doc::Array(events_merged(events_of(job))))
    } else {
        job
    }
}

/// Whether a job that is over lacks the time of its end, and there is one to
/// give.
pub open spec fn lacks_stamp(job: Doc, mtime: u64) -> bool {
    job.text_at("status"@) == Some("work_done"@) && job.whole_or("work_done_ms"@, 0) == 0 && mtime
        > 0
}

/// A job that is over and has the time of its end: when it was last written.
pub open spec fn stamped(job: Doc, mtime: u64) -> Doc {
    if lacks_stamp(job, mtime) {
        job.with("work_done_ms"@, Doc::num(mtime as int))
    } else {
        job
    }
}

/// A job brought up to date.
pub open spec fn job_merged(job: Doc, mtime: u64) -> Doc {
    stamped(timeline_merged(status_merged(job)), mtime)
}

/// What was done to a job.
pub struct JobChange {
    pub record: Json,
    pub status_rewritten: bool,
    pub events_touched: usize,
    pub stamped: bool,
}

/// What was done to a job.
pub struct JobChangeDoc {
    pub record: Doc,
    pub status_rewritten: bool,
    pub events_touched: nat,
    pub stamped: bool,
}

impl View for JobChange {
    type V = JobChangeDoc;

    open spec fn view(&self) -> JobChangeDoc {
        JobChangeDoc {
            record: self.record@,
            status_rewritten: self.status_rewritten,
            events_touched: self.events_touched as nat,
            stamped: self.stamped,
        }
    }
}

/// What is done to a job that is read; nothing where it is up to date, or no
/// object.
pub open spec fn job_change(job: Doc, mtime: u64) -> Option<JobChangeDoc> {
    let touched = closings(events_of(job));
    let stamp = lacks_stamp(timeline_merged(status_merged(job)), mtime);
    if job.is_object() && (was_over(job) || touched > 0 || stamp) {
        Some(
            JobChangeDoc {
                record: job_merged(job, mtime),
                status_rewritten: was_over(job),
                events_touched: touched,
                stamped: stamp,
            },
        )
    } else {
        None
    }
}

pub open spec fn opt_change(o: Option<JobChange>) -> Option<JobChangeDoc> {
    match o {
        Some(c) => Some(c@),
        None => None,
    }
}

fn over_before(job: &Json) -> (r: bool)
    ensures
        r == was_over(job@),
{
    match job.text_at("status") {
        Some(s) => text::same(s, "closed") || text::same(s, "finished"),
        None => job.flag_at("finished"),
    }
}

fn event_is(event: &Json, kind: &str) -> (r: bool)
    ensures
        r == is_event(event@, kind@),
{
    match event.text_at("type") {
        Some(s) => text::same(s, kind),
        None => false,
    }
}

fn find_event(events: &Vec<Json>, kind: &str) -> (r: bool)
    ensures
        r == has_event(json::docs(events@), kind@),
{
    let ghost all = json::docs(events@);
    let mut i: usize = 0;
    while i < events.len()
        invariant
            i <= events@.len(),
            all == json::docs(events@),
            forall|k: int| 0 <= k < i ==> !is_event(#[trigger] all[k], kind@),
        decreases events@.len() - i,
    {
        assert(all[i as int] == events@[i as int]@);
        if event_is(&events[i], kind) {
            assert(is_event(all[i as int], kind@));
            return true;
        }
        i = i + 1;
    }
    false
}

fn count_closings(events: &Vec<Json>) -> (r: usize)
    ensures
        r == closings(json::docs(events@)),
{
    let ghost all = json::docs(events@);
    let ghost keep = |e: Doc| is_event(e, "closed"@);
    let mut total: usize = 0;
    let mut i: usize = 0;
    proof {
        lists::lemma_filter_none(keep);
        assert(all.take(0) =~= Seq::<Doc>::empty());
    }
    while i < events.len()
        invariant
            i <= events@.len(),
            total <= i,
            all == json::docs(events@),
            keep == (|e: Doc| is_event(e, "closed"@)),
            total == all.take(i as int).filter(keep).len(),
        decreases events@.len() - i,
    {
        proof {
            lists::lemma_filter_step(all, i as int, keep);
            assert(all[i as int] == events@[i as int]@);
        }
        if event_is(&events[i], "closed") {
            total = total + 1;
        }
        i = i + 1;
    }
    assert(all.take(i as int) =~= all);
    total
}

fn drop_closings(events: &Vec<Json>) -> (r: Vec<Json>)
    ensures
        json::docs(r@) == json::docs(events@).filter(|e: Doc| !is_event(e, "closed"@)),
{
    let ghost all = json::docs(events@);
    let ghost keep = |e: Doc| !is_event(e, "closed"@);
    let mut out: Vec<Json> = Vec::new();
    let mut i: usize = 0;
    proof {
        lists::lemma_filter_none(keep);
        assert(all.take(0) =~= Seq::<Doc>::empty());
        assert(json::docs(out@) =~= Seq::<Doc>::empty());
    }
    while i < events.len()
        invariant
            i <= events@.len(),
            all == json::docs(events@),
            keep == (|e: Doc| !is_event(e, "closed"@)),
            json::docs(out@) == all.take(i as int).filter(keep),
        decreases events@.len() - i,
    {
        proof {
            lists::lemma_filter_step(all, i as int, keep);
            assert(all[i as int] == events@[i as int]@);
        }
        if !event_is(&events[i], "closed") {
            let ghost before = out@;
            let copy = events[i].clone();
            out.push(copy);
            assert(json::docs(out@) =~= json::docs(before).push(copy@));
        }
        i = i + 1;
    }
    assert(all.take(i as int) =~= all);
    out
}

fn rename_closings(events: &Vec<Json>) -> (r: Vec<Json>)
    ensures
        json::docs(r@) == json::docs(events@).map_values(|e: Doc| event_renamed(e)),
{
    let mut out: Vec<Json> = Vec::new();
    let mut i: usize = 0;
    while i < events.len()
        invariant
            i <= events@.len(),
            out@.len() == i,
            forall|k: int| 0 <= k < i ==> (#[trigger] out@[k])@ == event_renamed(events@[k]@),
        decreases events@.len() - i,
    {
        let copy = events[i].clone();
        if event_is(&events[i], "closed") {
            out.push(copy.with_text("type", "work_done"));
        } else {
            out.push(copy);
        }
        i = i + 1;
    }
    assert(json::docs(out@) =~= json::docs(events@).map_values(|e: Doc| event_renamed(e)));
    out
}

proof fn lemma_status_keeps_events(job: Doc)
    ensures
        events_of(status_merged(job)) == events_of(job),
{
    reveal_strlit("status");
    reveal_strlit("events");
    assert("status"@[0] != "events"@[0]);
}

/// What is done to a job that is read, last written at `mtime`.
pub fn migrate_job(job: Json, mtime: u64) -> (r: Option<JobChange>)
    ensures
        opt_change(r) == job_change(job@, mtime),
{
    if !job.is_object() {
        return None;
    }
    proof {
        lemma_status_keeps_events(job@);
        lists::lemma_filter_none(|e: Doc| is_event(e, "closed"@));
    }
    let over = over_before(&job);
    let (touched, merged): (usize, Option<Vec<Json>>) = match job.items_at("events") {
        Some(events) => {
            let n = count_closings(events);
            if n == 0 {
                (0, None)
            } else if find_event(events, "work_done") {
                (n, Some(drop_closings(events)))
            } else {
                (n, Some(rename_closings(events)))
            }
        },
        None => (0, None),
    };
    let current = if over {
        job.with_text("status", "work_done")
    } else {
        job
    };
    let timeline = match merged {
        Some(events) => current.with("events", Json::list(events)),
        None => current,
    };
    let ended = match timeline.text_at("status") {
        Some(s) => text::same(s, "work_done"),
        None => false,
    };
    let stamp = ended && timeline.whole_or("work_done_ms", 0) == 0 && mtime > 0;
    let record = if stamp {
        timeline.with("work_done_ms", Json::of_u64(mtime))
    } else {
        timeline
    };
    if over || touched > 0 || stamp {
        Some(
            JobChange { record, status_rewritten: over, events_touched: touched, stamped: stamp },
        )
    } else {
        None
    }
}

/// What is done to some jobs: the records to write, each with the place of
/// its job, and how many statuses, events and times were set.
pub struct Migration {
    pub writes: Vec<(usize, Json)>,
    pub status_rewrites: u64,
    pub events_touched: u64,
    pub stamps: u64,
}

pub struct MigrationDoc {
    pub writes: Seq<(int, Doc)>,
    pub status_rewrites: int,
    pub events_touched: int,
    pub stamps: int,
}

pub open spec fn write_docs(v: Seq<(usize, Json)>) -> Seq<(int, Doc)> {
    v.map_values(|w: (usize, Json)| (w.0 as int, w.1@))
}

impl View for Migration {
    type V = MigrationDoc;

    open spec fn view(&self) -> MigrationDoc {
        MigrationDoc {
            writes: write_docs(self.writes@),
            status_rewrites: self.status_rewrites as int,
            events_touched: self.events_touched as int,
            stamps: self.stamps as int,
        }
    }
}

pub open spec fn one_if(b: bool) -> int {
    if b {
        1
    } else {
        0
    }
}

/// What is done to the first `n` of some jobs.
pub open spec fn migration_of(jobs: Seq<FileDoc>, n: nat) -> MigrationDoc
    decreases n,
{
    if n == 0 {
        MigrationDoc {
            writes: Seq::<(int, Doc)>::empty(),
            status_rewrites: 0,
            events_touched: 0,
            stamps: 0,
        }
    } else {
        let i = n - 1;
        let before = migration_of(jobs, i as nat);
        match job_change(jobs[i].doc, jobs[i].saved_ms) {
            Some(c) => MigrationDoc {
                writes: before.writes.push((i, c.record)),
                status_rewrites: before.status_rewrites + one_if(c.status_rewritten),
                events_touched: before.events_touched + c.events_touched,
                stamps: before.stamps + one_if(c.stamped),
            },
            None => before,
        }
    }
}

/// What is done to all jobs that are read. There is nothing where the events
/// that were touched cannot be counted.
pub fn migrate_job_statuses(jobs: &Vec<StoredFile>) -> (r: Option<Migration>)
    ensures
        match r {
            Some(m) => m@ == migration_of(files::file_docs(jobs@), jobs@.len()),
            None => migration_of(files::file_docs(jobs@), jobs@.len()).events_touched > u64::MAX,
        },
{
    let ghost all = files::file_docs(jobs@);
    let mut writes: Vec<(usize, Json)> = Vec::new();
    let mut status_rewrites: usize = 0;
    let mut events_touched: u64 = 0;
    let mut stamps: usize = 0;
    let mut i: usize = 0;
    assert(write_docs(writes@) =~= Seq::<(int, Doc)>::empty());
    while i < jobs.len()
        invariant
            i <= jobs@.len(),
            status_rewrites <= i,
            stamps <= i,
            all == files::file_docs(jobs@),
            migration_of(all, i as nat) == (MigrationDoc {
                writes: write_docs(writes@),
                status_rewrites: status_rewrites as int,
                events_touched: events_touched as int,
                stamps: stamps as int,
            }),
        decreases jobs@.len() - i,
    {
        assert(all[i as int] == jobs@[i as int]@);
        if let Some(c) = migrate_job(jobs[i].doc.clone(), jobs[i].saved_ms) {
            let ghost before = writes@;
            if c.status_rewritten {
                status_rewrites = status_rewrites + 1;
            }
            if c.stamped {
                stamps = stamps + 1;
            }
            events_touched = match events_touched.checked_add(c.events_touched as u64) {
                Some(n) => n,
                None => {
                    proof {
                        lemma_touched_grows(all, (i + 1) as nat, all.len());
                    }
                    return None;
                },
            };
            let write = (i, c.record);
            writes.push(write);
            assert(write_docs(writes@) =~= write_docs(before).push((i as int, c.record@)));
        }
        i = i + 1;
    }
    Some(
        Migration {
            writes,
            status_rewrites: status_rewrites as u64,
            events_touched,
            stamps: stamps as u64,
        },
    )
}

proof fn lemma_touched_grows(jobs: Seq<FileDoc>, n: nat, m: nat)
    requires
        n <= m,
    ensures
        migration_of(jobs, n).events_touched <= migration_of(jobs, m).events_touched,
    decreases m,
{
    if n < m {
        lemma_touched_grows(jobs, n, (m - 1) as nat);
    }
}

proof fn lemma_merge_names()
    ensures
        "status"@ != "events"@,
        "status"@ != "work_done_ms"@,
        "events"@ != "work_done_ms"@,
        "work_done"@ != "closed"@,
        "work_done"@ != "finished"@,
{
    reveal_strlit("status");
    reveal_strlit("events");
    reveal_strlit("work_done_ms");
    reveal_strlit("work_done");
    reveal_strlit("closed");
    reveal_strlit("finished");
    assert("status"@[0] != "events"@[0]);
    assert("status"@.len() == 6 && "events"@.len() == 6 && "work_done_ms"@.len() == 12);
    assert("work_done"@.len() == 9 && "closed"@.len() == 6 && "finished"@.len() == 8);
}

/// No closing is left among merged events.
proof fn lemma_no_closings(events: Seq<Doc>)
    ensures
        closings(events_merged(events)) == 0,
{
    lemma_merge_names();
    let closed = |e: Doc| is_event(e, "closed"@);
    let merged = events_merged(events);
    assert forall|i: int| 0 <= i < merged.len() implies !closed(#[trigger] merged[i]) by {
        if has_event(events, "work_done"@) {
            let keep = |e: Doc| !is_event(e, "closed"@);
            assert(merged.contains(merged[i]));
            lists::lemma_filter_holds(events, keep, merged[i]);
            assert(keep(merged[i]));
        } else {
            assert(merged[i] == event_renamed(events[i]));
        }
    }
    let left = merged.filter(closed);
    if left.len() > 0 {
        assert(left.contains(left[0]));
        lists::lemma_filter_holds(merged, closed, left[0]);
        let k = choose|k: int| 0 <= k < merged.len() && merged[k] == left[0];
        assert(!closed(merged[k]));
    }
}

/// A job that was brought up to date is up to date: the next start changes
/// nothing. A job that was read without the time of its writing may get one
/// later.
pub proof fn law_migration_settles(job: Doc, mtime: u64, later: u64)
    requires
        mtime > 0 || later == 0,
    ensures
        job_change(job_merged(job, mtime), later) is None,
{
    if job.is_object() {
        lemma_merge_names();
        lemma_status_keeps_events(job);
        let once = status_merged(job);
        let twice = timeline_merged(once);
        let done = job_merged(job, mtime);
        lemma_no_closings(events_of(job));
        assert(closings(events_of(twice)) == 0);
        assert(events_of(done) == events_of(twice));
        assert(twice.text_at("status"@) == once.text_at("status"@));
        assert(done.text_at("status"@) == once.text_at("status"@));
        assert(!was_over(done)) by {
            reveal_strlit("finished");
            assert("finished"@.len() == 8);
            reveal_strlit("status");
            reveal_strlit("events");
            reveal_strlit("work_done_ms");
            assert(done.get("finished"@) == job.get("finished"@));
        }
        assert(timeline_merged(status_merged(done)) == done);
    }
}

/// A job that is brought up to date is over afterwards exactly where it was
/// over before, in the words of today or of earlier days.
pub proof fn law_migration_keeps_state(job: Doc, mtime: u64)
    requires
        job.is_object(),
    ensures
        job_merged(job, mtime).text_at("status"@) == if was_over(job) {
            Some("work_done"@)
        } else {
            job.text_at("status"@)
        },
{
    lemma_merge_names();
}

/// What the record of a car says of its fuel when it is brought up to date;
/// nothing where it may stay.
pub open spec fn fuel_fixed(car: Doc) -> Option<Seq<char>> {
    match car.text_at("fuel_type"@) {
        None => Some("unknown"@),
        Some(s) => if s == "hybrid"@ {
            Some("petrol-electric"@)
        } else {
            None
        },
    }
}

/// The record to write where the fuel of a car is set, and whether it had
/// none.
pub fn backfill_fuel_type(car: Json) -> (r: Option<(Json, bool)>)
    ensures
        match r {
            Some(p) => car@.is_object() && fuel_fixed(car@) is Some && p.0@ == car@.with(
                "fuel_type"@,
                Doc::Str(fuel_fixed(car@)->0),
            ) && p.1 == (car@.text_at("fuel_type"@) is None),
            None => !car@.is_object() || fuel_fixed(car@) is None,
        },
        match r {
            Some(p) => fuel_set(car@) == Some((p.0@, p.1)),
            None => fuel_set(car@) is None,
        },
{
    if !car.is_object() {
        return None;
    }
    let (next, missing) = match car.text_at("fuel_type") {
        None => ("unknown", true),
        Some(s) => {
            if text::same(s, "hybrid") {
                ("petrol-electric", false)
            } else {
                return None;
            }
        },
    };
    Some((car.with_text("fuel_type", next), missing))
}

/// A fuel that was set stays as it is at the next start.
pub proof fn law_fuel_settles(car: Doc)
    requires
        car.is_object(),
        fuel_fixed(car) is Some,
    ensures
        fuel_fixed(car.with("fuel_type"@, Doc::Str(fuel_fixed(car)->0))) is None,
{
    reveal_strlit("unknown");
    reveal_strlit("hybrid");
    reveal_strlit("petrol-electric");
    assert("unknown"@.len() == 7 && "hybrid"@.len() == 6 && "petrol-electric"@.len() == 15);
}

/// The plate under which a job of the old database is kept.
pub open spec fn old_plate(job: Doc) -> Seq<char> {
    names::safe_plate(jobs::vehicle_text(job, "reg_no"@, "UNKNOWN"@))
}

pub fn legacy_plate(job: &Json) -> (r: String)
    ensures
        r@ == old_plate(job@),
{
    names::sanitize_plate(jobs::text_of_vehicle(job, "reg_no", "UNKNOWN").as_str())
}

/// The record of a car that is first heard of through a job of the old
/// database. Its customer is not taken over.
pub open spec fn old_car(job: Doc, now: u64) -> Doc {
    let none = Seq::<char>::empty();
    Doc::object().with("plate"@, Doc::Str(old_plate(job))).with(
        "reg_no"@,
        Doc::Str(jobs::vehicle_text(job, "reg_no"@, "UNKNOWN"@)),
    ).with("make"@, Doc::Str(jobs::vehicle_text(job, "make"@, none))).with(
        "model"@,
        Doc::Str(jobs::vehicle_text(job, "model"@, none)),
    ).with("customer_name"@, Doc::Str(none)).with("customer_phone"@, Doc::Str(none)).with(
        "created_ms"@,
        Doc::num(now as int),
    ).with("updated_ms"@, Doc::num(now as int)).with("source"@, Doc::Str("migrated"@))
}

fn make_old_car(job: &Json, now: u64) -> (r: Json)
    ensures
        r@ == old_car(job@, now),
{
    let none = String::new();
    assert(none@ =~= Seq::<char>::empty());
    Json::object().with_text("plate", legacy_plate(job).as_str()).with_text(
        "reg_no",
        jobs::text_of_vehicle(job, "reg_no", "UNKNOWN").as_str(),
    ).with_text("make", jobs::text_of_vehicle(job, "make", none.as_str()).as_str()).with_text(
        "model",
        jobs::text_of_vehicle(job, "model", none.as_str()).as_str(),
    ).with_text("customer_name", none.as_str()).with_text("customer_phone", none.as_str()).with(
        "created_ms",
        Json::of_u64(now),
    ).with("updated_ms", Json::of_u64(now)).with_text("source", "migrated")
}

/// What is done with a job of the old database: whether it is copied, and the
/// record of its car where that is written. What is there is not written
/// over.
pub fn migrate_legacy_database(job: &Json, job_there: bool, car_there: bool, now: u64) -> (r: (
    bool,
    Option<Json>,
))
    ensures
        r.0 == !job_there,
        json::opt_json(r.1) == if car_there {
            None
        } else {
            Some(old_car(job@, now))
        },
        (r.0, json::opt_json(r.1)) == old_job_moved(job@, job_there, car_there, now),
{
    let car = if car_there {
        None
    } else {
        Some(make_old_car(job, now))
    };
    (!job_there, car)
}

/// What is done with the rules at their old place.
pub enum RulesMove {
    /// Nothing is there.
    Nothing,
    /// The directory is left over.
    DropDirectory,
    /// There are rules at the new place: the old ones go.
    DropOld,
    /// The rules are moved.
    Move,
}

/// What is done with the rules at their old place.
pub open spec fn rules_move(old_file: bool, old_dir: bool, new_file: bool) -> RulesMove {
    if !old_file {
        if old_dir {
            RulesMove::DropDirectory
        } else {
            RulesMove::Nothing
        }
    } else if new_file {
        RulesMove::DropOld
    } else {
        RulesMove::Move
    }
}

pub fn migrate_autofill_location(old_file: bool, old_dir: bool, new_file: bool) -> (r: RulesMove)
    ensures
        r == rules_move(old_file, old_dir, new_file),
        r is Move ==> !new_file,
{
    if !old_file {
        if old_dir {
            RulesMove::DropDirectory
        } else {
            RulesMove::Nothing
        }
    } else if new_file {
        RulesMove::DropOld
    } else {
        RulesMove::Move
    }
}

/// No two of these names are the same.
proof fn lemma_migrate_names()
    ensures
        "status"@.len() == 6,
        "finished"@.len() == 8,
        "closed"@.len() == 6,
        "work_done"@.len() == 9,
        "events"@.len() == 6,
        "work_done_ms"@.len() == 12,
        "type"@.len() == 4,
        "fuel_type"@.len() == 9,
        "plate"@.len() == 5,
        "reg_no"@.len() == 6,
        "make"@.len() == 4,
        "model"@.len() == 5,
        "customer_name"@.len() == 13,
        "customer_phone"@.len() == 14,
        "created_ms"@.len() == 10,
        "updated_ms"@.len() == 10,
        "source"@.len() == 6,
        "status"@ != "closed"@,
        "status"@ != "events"@,
        "status"@ != "reg_no"@,
        "status"@ != "source"@,
        "closed"@ != "events"@,
        "closed"@ != "reg_no"@,
        "closed"@ != "source"@,
        "work_done"@ != "fuel_type"@,
        "events"@ != "reg_no"@,
        "events"@ != "source"@,
        "type"@ != "make"@,
        "plate"@ != "model"@,
        "reg_no"@ != "source"@,
        "created_ms"@ != "updated_ms"@,
{
    reveal_strlit("status");
    reveal_strlit("finished");
    reveal_strlit("closed");
    reveal_strlit("work_done");
    reveal_strlit("events");
    reveal_strlit("work_done_ms");
    reveal_strlit("type");
    reveal_strlit("fuel_type");
    reveal_strlit("plate");
    reveal_strlit("reg_no");
    reveal_strlit("make");
    reveal_strlit("model");
    reveal_strlit("customer_name");
    reveal_strlit("customer_phone");
    reveal_strlit("created_ms");
    reveal_strlit("updated_ms");
    reveal_strlit("source");
    assert("status"@[0] != "closed"@[0]);
    assert("status"@[0] != "events"@[0]);
    assert("status"@[0] != "reg_no"@[0]);
    assert("status"@[1] != "source"@[1]);
    assert("closed"@[0] != "events"@[0]);
    assert("closed"@[0] != "reg_no"@[0]);
    assert("closed"@[0] != "source"@[0]);
    assert("work_done"@[0] != "fuel_type"@[0]);
    assert("events"@[0] != "reg_no"@[0]);
    assert("events"@[0] != "source"@[0]);
    assert("type"@[0] != "make"@[0]);
    assert("plate"@[0] != "model"@[0]);
    assert("reg_no"@[0] != "source"@[0]);
    assert("created_ms"@[0] != "updated_ms"@[0]);
}

/// Which jobs are over when they are brought up to date: those that say
/// `closed` or `finished`, and those that say no status but are marked as
/// finished.
pub proof fn law_was_over(job: Doc, s: Seq<char>)
    ensures
        job.text_at("status"@) == Some(s) ==> (was_over(job) <==> s == "closed"@ || s == "finished"@),
        job.text_at("status"@) is None ==> (was_over(job) <==> job.get("finished"@) == Some(
            Doc::Bool(true),
        )),
{
}

/// What is written for a job: what it says stays, but for its status where it
/// is over, its timeline where work was closed in it, and the time at which the
/// work was done where that was not known.
pub proof fn law_job_written(job: Doc, mtime: u64, k: Seq<char>)
    requires
        job.is_object(),
    ensures
        ({
            let done = job_merged(job, mtime);
            let over = match job.text_at("status"@) {
                Some(s) => s == "closed"@ || s == "finished"@,
                None => job.get("finished"@) == Some(Doc::Bool(true)),
            };
            &&& k != "status"@ && k != "events"@ && k != "work_done_ms"@ ==> done.get(k) == job.get(
                k,
            )
            &&& over ==> done.text_at("status"@) == Some("work_done"@)
            &&& !over ==> done.get("status"@) == job.get("status"@)
            &&& (over || job.text_at("status"@) == Some("work_done"@)) && job.whole_or(
                "work_done_ms"@,
                0,
            ) == 0 && mtime > 0 ==> done.whole_at("work_done_ms"@) == Some(mtime)
            &&& !((over || job.text_at("status"@) == Some("work_done"@)) && job.whole_or(
                "work_done_ms"@,
                0,
            ) == 0 && mtime > 0) ==> done.get("work_done_ms"@) == job.get("work_done_ms"@)
        }),
{
    lemma_migrate_names();
}

proof fn lemma_closings(events: Seq<Doc>)
    ensures
        closings(events) > 0 <==> exists|i: int|
            0 <= i < events.len() && (#[trigger] events[i]).text_at("type"@) == Some("closed"@),
{
    let keep = |e: Doc| is_event(e, "closed"@);
    let kept = events.filter(keep);
    if kept.len() > 0 {
        assert(kept.contains(kept[0]));
        lists::lemma_filter_holds(events, keep, kept[0]);
        let i = choose|i: int| 0 <= i < events.len() && events[i] == kept[0];
        assert(events[i].text_at("type"@) == Some("closed"@));
    }
    if exists|i: int|
        0 <= i < events.len() && (#[trigger] events[i]).text_at("type"@) == Some("closed"@) {
        let i = choose|i: int|
            0 <= i < events.len() && (#[trigger] events[i]).text_at("type"@) == Some("closed"@);
        assert(events.contains(events[i]));
        lists::lemma_filter_holds(events, keep, events[i]);
        assert(kept.contains(events[i]));
    }
}

/// The timeline of a job in which work was not yet done: each event that closed
/// it becomes one that says that the work is done, at its place, and keeps what
/// else it says; the others stay.
pub proof fn law_timeline_renamed(job: Doc, mtime: u64, events: Seq<Doc>, i: int, k: Seq<char>)
    requires
        job.is_object(),
        job.items_at("events"@) == Some(events),
        0 <= i < events.len(),
        forall|j: int|
            0 <= j < events.len() ==> (#[trigger] events[j]).text_at("type"@) != Some("work_done"@),
    ensures
        job_merged(job, mtime).items_at("events"@) matches Some(v) && v.len() == events.len() && (
        events[i].text_at("type"@) != Some("closed"@) ==> v[i] == events[i]) && (events[i].text_at(
            "type"@,
        ) == Some("closed"@) ==> v[i].text_at("type"@) == Some("work_done"@) && (k != "type"@
            ==> v[i].get(k) == events[i].get(k))),
{
    lemma_migrate_names();
    lemma_status_keeps_events(job);
    lemma_closings(events);
    assert(!has_event(events, "work_done"@)) by {
        if has_event(events, "work_done"@) {
            let j = choose|j: int|
                0 <= j < events.len() && is_event(#[trigger] events[j], "work_done"@);
            assert(events[j].text_at("type"@) != Some("work_done"@));
        }
    }
    if closings(events) == 0 {
        assert(events[i].text_at("type"@) != Some("closed"@));
    }
}

/// The timeline of a job in which work was done: the events that closed it go,
/// the others stay in their order.
pub proof fn law_timeline_thinned(job: Doc, mtime: u64, events: Seq<Doc>, e: Doc, j: int)
    requires
        job.is_object(),
        job.items_at("events"@) == Some(events),
        0 <= j < events.len(),
        events[j].text_at("type"@) == Some("work_done"@),
    ensures
        job_merged(job, mtime).items_at("events"@) matches Some(v) && (v.contains(e)
            <==> events.contains(e) && e.text_at("type"@) != Some("closed"@)),
        e.text_at("type"@) == Some("closed"@) ==> events_merged(events.push(e)) == events_merged(
            events,
        ),
        e.text_at("type"@) != Some("closed"@) ==> events_merged(events.push(e)) == events_merged(
            events,
        ).push(e),
{
    lemma_migrate_names();
    lemma_status_keeps_events(job);
    lemma_closings(events);
    let keep = |x: Doc| !is_event(x, "closed"@);
    assert(is_event(events[j], "work_done"@));
    assert(has_event(events, "work_done"@));
    assert(is_event(events.push(e)[j], "work_done"@));
    assert(has_event(events.push(e), "work_done"@));
    lists::lemma_filter_push(events, e, keep);
    lists::lemma_filter_holds(events, keep, e);
    if closings(events) == 0 && events.contains(e) {
        let i = choose|i: int| 0 <= i < events.len() && events[i] == e;
        assert(events[i].text_at("type"@) != Some("closed"@));
    }
}

/// Each event that closed a job counts once.
pub proof fn law_closings(events: Seq<Doc>, e: Doc)
    ensures
        closings(Seq::<Doc>::empty()) == 0,
        closings(events.push(e)) == closings(events) + if e.text_at("type"@) == Some("closed"@) {
            1nat
        } else {
            0nat
        },
{
    let keep = |x: Doc| is_event(x, "closed"@);
    lists::lemma_filter_none(keep);
    lists::lemma_filter_push(events, e, keep);
}

/// A job is written where it changes, and only there; what is said of the
/// change is what was changed.
pub proof fn law_job_change(job: Doc, mtime: u64)
    requires
        job.is_object(),
    ensures
        job_change(job, mtime) is None ==> job_merged(job, mtime) == job,
        job_change(job, mtime) matches Some(c) ==> c.record == job_merged(job, mtime) && (
        c.status_rewritten <==> was_over(job)) && c.events_touched == closings(
            match job.items_at("events"@) {
                Some(v) => v,
                None => Seq::<Doc>::empty(),
            },
        ) && (c.stamped <==> (was_over(job) || job.text_at("status"@) == Some("work_done"@))
            && job.whole_or("work_done_ms"@, 0) == 0 && mtime > 0),
        job_change(job, mtime) is Some <==> was_over(job) || (job.items_at("events"@) matches Some(v)
            && closings(v) > 0) || ((was_over(job) || job.text_at("status"@) == Some("work_done"@))
            && job.whole_or("work_done_ms"@, 0) == 0 && mtime > 0),
{
    lemma_migrate_names();
    lemma_status_keeps_events(job);
    lists::lemma_filter_none(|x: Doc| is_event(x, "closed"@));
}

/// What is no object is not written.
pub proof fn law_no_job_change(job: Doc, mtime: u64)
    requires
        !job.is_object(),
    ensures
        job_change(job, mtime) is None,
{
}

/// The jobs that are written are those that change, each once and in their
/// order, with what they become.
pub proof fn law_migration_writes(jobs: Seq<FileDoc>, n: nat, i: int)
    requires
        n <= jobs.len(),
    ensures
        forall|a: int|
            0 <= a < migration_of(jobs, n).writes.len() ==> 0 <= (#[trigger] migration_of(
                jobs,
                n,
            ).writes[a]).0 < n,
        forall|a: int, b: int|
            0 <= a < b < migration_of(jobs, n).writes.len() ==> (#[trigger] migration_of(
                jobs,
                n,
            ).writes[a]).0 < (#[trigger] migration_of(jobs, n).writes[b]).0,
        0 <= i < n ==> match job_change(jobs[i].doc, jobs[i].saved_ms) {
            Some(c) => migration_of(jobs, n).writes.contains((i, c.record)),
            None => forall|a: int|
                0 <= a < migration_of(jobs, n).writes.len() ==> (#[trigger] migration_of(
                    jobs,
                    n,
                ).writes[a]).0 != i,
        },
    decreases n,
{
    if n > 0 {
        let m = (n - 1) as nat;
        law_migration_writes(jobs, m, i);
        let before = migration_of(jobs, m).writes;
        let after = migration_of(jobs, n).writes;
        match job_change(jobs[m as int].doc, jobs[m as int].saved_ms) {
            Some(c) => {
                assert(after == before.push((m as int, c.record)));
                assert(after[before.len() as int] == (m as int, c.record));
                if 0 <= i < m {
                    if let Some(d) = job_change(jobs[i].doc, jobs[i].saved_ms) {
                        let a = choose|a: int| 0 <= a < before.len() && before[a] == (i, d.record);
                        assert(after[a] == (i, d.record));
                    }
                }
            },
            None => {
                assert(after == before);
            },
        }
    }
}

/// The counts of what was changed: one more job changes each by what was
/// changed in it.
pub proof fn law_migration_counts(jobs: Seq<FileDoc>, n: nat)
    requires
        n < jobs.len(),
    ensures
        migration_of(jobs, 0).status_rewrites == 0,
        migration_of(jobs, 0).events_touched == 0,
        migration_of(jobs, 0).stamps == 0,
        job_change(jobs[n as int].doc, jobs[n as int].saved_ms) matches Some(c) ==> {
            &&& migration_of(jobs, n + 1).status_rewrites == migration_of(jobs, n).status_rewrites
                + if c.status_rewritten {
                1int
            } else {
                0int
            }
            &&& migration_of(jobs, n + 1).events_touched == migration_of(jobs, n).events_touched
                + c.events_touched
            &&& migration_of(jobs, n + 1).stamps == migration_of(jobs, n).stamps + if c.stamped {
                1int
            } else {
                0int
            }
        },
        job_change(jobs[n as int].doc, jobs[n as int].saved_ms) is None ==> migration_of(
            jobs,
            n + 1,
        ) == migration_of(jobs, n),
{
}

/// What the fuel of a car becomes: `unknown` where it has none, another name
/// where it is a hybrid; any other stays.
pub proof fn law_fuel_fixed(car: Doc, s: Seq<char>)
    ensures
        car.text_at("fuel_type"@) is None ==> fuel_fixed(car) == Some("unknown"@),
        car.text_at("fuel_type"@) == Some("hybrid"@) ==> fuel_fixed(car) == Some(
            "petrol-electric"@,
        ),
        car.text_at("fuel_type"@) == Some(s) && s != "hybrid"@ ==> fuel_fixed(car) is None,
{
}

/// A car that is first heard of through an old job: its plate, make and model
/// are those of the vehicle that the job names; no customer is known.
pub proof fn law_old_car(job: Doc, now: u64, k: Seq<char>)
    ensures
        ({
            let car = old_car(job, now);
            let vehicle = match job.get("vehicle"@) {
                Some(v) => v,
                None => Doc::Null,
            };
            &&& k == "make"@ || k == "model"@ ==> car.text_at(k) == Some(vehicle.text_in(k))
            &&& k == "customer_name"@ || k == "customer_phone"@ ==> car.text_at(k) == Some(
                Seq::<char>::empty(),
            )
            &&& k == "created_ms"@ || k == "updated_ms"@ ==> car.whole_at(k) == Some(now)
            &&& car.text_at("source"@) == Some("migrated"@)
            &&& car.text_at("reg_no"@) == Some(
                match vehicle.text_at("reg_no"@) {
                    Some(s) => s,
                    None => "UNKNOWN"@,
                },
            )
            &&& car.text_at("plate"@) == Some(names::safe_plate(car.text_in("reg_no"@)))
            &&& old_plate(job) == car.text_in("plate"@)
        }),
{
    lemma_migrate_names();
}

/// Rules are moved where they stand at the old place and none at the new one;
/// those at the new place are never written over.
pub proof fn law_rules_move(old_dir: bool, new_file: bool)
    ensures
        rules_move(true, old_dir, false) is Move,
        rules_move(true, old_dir, true) is DropOld,
        rules_move(false, true, new_file) is DropDirectory,
        rules_move(false, false, new_file) is Nothing,
{
}

/// The record to write where the fuel of a car is set, and whether it had none.
pub open spec fn fuel_set(car: Doc) -> Option<(Doc, bool)> {
    match fuel_fixed(car) {
        Some(s) if car.is_object() => Some(
            (car.with("fuel_type"@, Doc::Str(s)), car.text_at("fuel_type"@) is None),
        ),
        _ => None,
    }
}

/// What is written for a job of the old database: whether the job is, and the
/// record of its car.
pub open spec fn old_job_moved(job: Doc, job_there: bool, car_there: bool, now: u64) -> (
    bool,
    Option<Doc>,
) {
    (
        !job_there,
        if car_there {
            None
        } else {
            Some(old_car(job, now))
        },
    )
}

/// A car without a fuel gets one, a hybrid another name; nothing else of it
/// changes, and any other car stays.
pub proof fn law_fuel_set(car: Doc, k: Seq<char>, s: Seq<char>)
    requires
        car.is_object(),
    ensures
        car.text_at("fuel_type"@) is None ==> (fuel_set(car) matches Some(p) && p.1 && p.0.text_at(
            "fuel_type"@,
        ) == Some("unknown"@) && (k != "fuel_type"@ ==> p.0.get(k) == car.get(k))),
        car.text_at("fuel_type"@) == Some("hybrid"@) ==> (fuel_set(car) matches Some(p) && !p.1
            && p.0.text_at("fuel_type"@) == Some("petrol-electric"@) && (k != "fuel_type"@
            ==> p.0.get(k) == car.get(k))),
        car.text_at("fuel_type"@) == Some(s) && s != "hybrid"@ ==> fuel_set(car) is None,
        !(Doc::Str(s)).is_object() && fuel_set(Doc::Str(s)) is None,
{
}

/// Nothing that is there already is written over.
pub proof fn law_old_job_moved(job: Doc, job_there: bool, car_there: bool, now: u64)
    ensures
        old_job_moved(job, job_there, car_there, now).0 <==> !job_there,
        car_there ==> old_job_moved(job, job_there, car_there, now).1 is None,
        !car_there ==> (old_job_moved(job, job_there, car_there, now).1 matches Some(d) && d.text_at(
            "plate"@,
        ) == Some(old_plate(job)) && d.text_at("source"@) == Some("migrated"@)),
{
    lemma_migrate_names();
}

} // verus!
