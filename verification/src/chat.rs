//! The chat of the workshop: one feed, and who is online.
use crate::failure;
use crate::failure::{fail, Failure, Status};
use crate::json;
use crate::json::{Doc, Json};
use crate::lists;
use crate::names;
use crate::records;
use crate::text;
use vstd::prelude::*;

verus! {

/// A number of months, days or hours in the settings; none is negative.
pub open spec fn span_in(settings: Doc, k: Seq<char>) -> nat {
    match settings.get(k) {
        Some(v) => match v.integer() {
            Some(n) if n > 0 => n as nat,
            _ => 0,
        },
        None => 0,
    }
}

/// How many hours the feed is kept; zero stands for ever.
pub open spec fn hours_kept(settings: Doc) -> nat {
    span_in(settings, "chat_retention_months"@) * 720 + span_in(settings, "chat_retention_days"@)
        * 24 + span_in(settings, "chat_retention_hours"@)
}

/// The time before which entries are old; there is none where all are kept.
pub open spec fn cutoff_of(settings: Option<Doc>, now: nat) -> Option<nat> {
    match settings {
        Some(s) => if hours_kept(s) == 0 {
            None
        } else if now >= hours_kept(s) * 3_600_000 {
            Some((now - hours_kept(s) * 3_600_000) as nat)
        } else {
            Some(0)
        },
        None => None,
    }
}

fn read_span(settings: &Json, k: &str) -> (r: u128)
    ensures
        r == span_in(settings@, k@),
        r <= i64::MAX,
{
    match settings.get(k) {
        Some(v) => match v.integer() {
            Some(n) => {
                if n > 0 {
                    n as u128
                } else {
                    0
                }
            },
            None => 0,
        },
        None => 0,
    }
}

pub open spec fn opt_nat(o: Option<u128>) -> Option<nat> {
    match o {
        Some(n) => Some(n as nat),
        None => None,
    }
}

pub fn chat_retention_cutoff(settings: Option<&Json>, now: u128) -> (r: Option<u128>)
    ensures
        opt_nat(r) == cutoff_of(json::opt_doc(settings), now as nat),
{
    let s = match settings {
        Some(s) => s,
        None => return None,
    };
    let months = read_span(s, "chat_retention_months");
    let days = read_span(s, "chat_retention_days");
    let hours = read_span(s, "chat_retention_hours");
    let total = months * 720 + days * 24 + hours;
    if total == 0 {
        return None;
    }
    let window = total * 3_600_000;
    if now >= window {
        Some(now - window)
    } else {
        Some(0)
    }
}

/// Whether an entry is not old; one without a time is kept.
pub open spec fn is_recent(entry: Doc, cutoff: nat) -> bool {
    match entry.whole_at("ts"@) {
        Some(n) => n >= cutoff,
        None => true,
    }
}

/// The feed without what is old, where the settings say that it is deleted.
pub open spec fn feed_kept(feed: Seq<Doc>, settings: Option<Doc>, now: nat) -> Seq<Doc> {
    match (settings, cutoff_of(settings, now)) {
        (Some(s), Some(cutoff)) if s.flag_at("chat_retention_delete"@) => feed.filter(
            |e: Doc| is_recent(e, cutoff),
        ),
        _ => feed,
    }
}

fn drop_old(feed: Vec<Json>, cutoff: u128) -> (r: Vec<Json>)
    ensures
        json::docs(r@) == json::docs(feed@).filter(|e: Doc| is_recent(e, cutoff as nat)),
{
    let ghost all = json::docs(feed@);
    let ghost keep = |e: Doc| is_recent(e, cutoff as nat);
    let mut out: Vec<Json> = Vec::new();
    let mut i: usize = 0;
    proof {
        lists::lemma_filter_none(keep);
        assert(all.take(0) =~= Seq::<Doc>::empty());
        assert(json::docs(out@) =~= Seq::<Doc>::empty());
    }
    while i < feed.len()
        invariant
            i <= feed@.len(),
            all == json::docs(feed@),
            keep == (|e: Doc| is_recent(e, cutoff as nat)),
            json::docs(out@) == all.take(i as int).filter(keep),
        decreases feed@.len() - i,
    {
        proof {
            lists::lemma_filter_step(all, i as int, keep);
            assert(all[i as int] == feed@[i as int]@);
        }
        let recent = match feed[i].whole_at("ts") {
            Some(n) => n as u128 >= cutoff,
            None => true,
        };
        if recent {
            let ghost before = out@;
            let copy = feed[i].clone();
            out.push(copy);
            assert(json::docs(out@) =~= json::docs(before).push(copy@));
        }
        i = i + 1;
    }
    assert(all.take(i as int) =~= all);
    out
}

/// The feed without what is old, and whether it is to be written.
pub fn apply_chat_retention(feed: Vec<Json>, settings: Option<&Json>, now: u128) -> (r: (
    Vec<Json>,
    bool,
))
    ensures
        json::docs(r.0@) == feed_kept(json::docs(feed@), json::opt_doc(settings), now as nat),
        r.1 == (r.0@.len() != feed@.len()),
{
    let asked = match settings {
        Some(s) => s.flag_at("chat_retention_delete"),
        None => false,
    };
    if !asked {
        return (feed, false);
    }
    match chat_retention_cutoff(settings, now) {
        Some(cutoff) => {
            let before = feed.len();
            let kept = drop_old(feed, cutoff);
            let changed = kept.len() != before;
            (kept, changed)
        },
        None => (feed, false),
    }
}

/// Whether an entry is newer than what a client has.
pub open spec fn is_news(entry: Doc, since: u64) -> bool {
    match entry.whole_at("ts"@) {
        Some(n) => n > since,
        None => false,
    }
}

/// What a client gets: what is newer than what it has, and how many are
/// online.
pub open spec fn feed_answer(feed: Seq<Doc>, since: u64, online: u64) -> Doc {
    failure::listing(feed.filter(|e: Doc| is_news(e, since))).with(
        "online"@,
        Doc::num(online as int),
    )
}

pub fn list_chat_feed(feed: &Vec<Json>, since: Option<u64>, online: u64) -> (r: Json)
    ensures
        r@ == feed_answer(
            json::docs(feed@),
            match since {
                Some(n) => n,
                None => 0,
            },
            online,
        ),
        r@ == feed_shown(json::docs(feed@), since, online),
{
    let since: u64 = match since {
        Some(n) => n,
        None => 0,
    };
    let ghost all = json::docs(feed@);
    let ghost keep = |e: Doc| is_news(e, since);
    let mut out: Vec<Json> = Vec::new();
    let mut i: usize = 0;
    proof {
        lists::lemma_filter_none(keep);
        assert(all.take(0) =~= Seq::<Doc>::empty());
        assert(json::docs(out@) =~= Seq::<Doc>::empty());
    }
    while i < feed.len()
        invariant
            i <= feed@.len(),
            all == json::docs(feed@),
            keep == (|e: Doc| is_news(e, since)),
            json::docs(out@) == all.take(i as int).filter(keep),
        decreases feed@.len() - i,
    {
        proof {
            lists::lemma_filter_step(all, i as int, keep);
            assert(all[i as int] == feed@[i as int]@);
        }
        let news = match feed[i].whole_at("ts") {
            Some(n) => n > since,
            None => false,
        };
        if news {
            let ghost before = out@;
            let copy = feed[i].clone();
            out.push(copy);
            assert(json::docs(out@) =~= json::docs(before).push(copy@));
        }
        i = i + 1;
    }
    assert(all.take(i as int) =~= all);
    failure::list_answer(out).with("online", Json::of_u64(online))
}

/// The latest time in the feed; zero where there is none.
pub open spec fn last_ts(feed: Seq<Doc>) -> u64
    decreases feed.len(),
{
    if feed.len() == 0 {
        0
    } else {
        let before = last_ts(feed.drop_last());
        match feed.last().whole_at("ts"@) {
            Some(n) if n > before => n,
            _ => before,
        }
    }
}

/// The time of a new entry: now, or just after the latest where that is not
/// past.
pub open spec fn next_ts(feed: Seq<Doc>, now: u64) -> int {
    if now > last_ts(feed) {
        now as int
    } else {
        last_ts(feed) + 1
    }
}

/// An entry with its time and an id that follows from it.
pub open spec fn entry_stamped(entry: Doc, ts: int) -> Doc {
    entry.with("id"@, Doc::Str(names::stamped("m-"@, ts as nat))).with("ts"@, Doc::num(ts))
}

fn read_last_ts(feed: &Vec<Json>) -> (r: u64)
    ensures
        r == last_ts(json::docs(feed@)),
{
    let ghost all = json::docs(feed@);
    let mut last: u64 = 0;
    let mut i: usize = 0;
    while i < feed.len()
        invariant
            i <= feed@.len(),
            all == json::docs(feed@),
            last == last_ts(all.take(i as int)),
        decreases feed@.len() - i,
    {
        assert(all.take(i + 1).drop_last() =~= all.take(i as int));
        assert(all.take(i + 1).last() == feed@[i as int]@);
        if let Some(n) = feed[i].whole_at("ts") {
            if n > last {
                last = n;
            }
        }
        i = i + 1;
    }
    assert(all.take(i as int) =~= all);
    last
}

/// The feed with one more entry, and that entry. There is none where no time
/// is left after the latest.
pub fn append_chat_entry(feed: Vec<Json>, entry: Json, now: u64) -> (r: Option<(Vec<Json>, Json)>)
    ensures
        match r {
            Some(p) => {
                let ts = next_ts(json::docs(feed@), now);
                &&& ts <= u64::MAX
                &&& p.1@ == entry_stamped(entry@, ts)
                &&& json::docs(p.0@) == json::docs(feed@).push(entry_stamped(entry@, ts))
            },
            None => next_ts(json::docs(feed@), now) > u64::MAX,
        },
{
    let last = read_last_ts(&feed);
    let ts = if now > last {
        now
    } else if last < u64::MAX {
        last + 1
    } else {
        return None;
    };
    let id = names::stamped_id("m-", ts as u128);
    let stamped = entry.with_text("id", id.as_str()).with("ts", Json::of_u64(ts));
    let copy = stamped.clone();
    Some((records::add_last(feed, copy), stamped))
}

/// A message of a person.
pub open spec fn message_entry(said: Seq<char>, author: Seq<char>) -> Result<
    Doc,
    (Status, Seq<char>),
> {
    if text::trimmed(said).len() == 0 {
        Err((Status::BadRequest, "text is required"@))
    } else {
        Ok(
            Doc::object().with("type"@, Doc::Str("msg"@)).with(
                "author"@,
                Doc::Str(text::trimmed(author)),
            ).with("text"@, Doc::Str(text::trimmed(said))),
        )
    }
}

pub fn post_chat_message(said: &str, author: &str) -> (r: Result<Json, Failure>)
    ensures
        failure::outcome(r) == message_entry(said@, author@),
{
    let body = text::trim(said);
    if body.as_str().is_empty() {
        return Err(fail(Status::BadRequest, "text is required"));
    }
    Ok(
        Json::object().with_text("type", "msg").with_text(
            "author",
            text::trim(author).as_str(),
        ).with_text("text", body.as_str()),
    )
}

/// The kinds of events that have a picture of their own.
pub open spec fn is_event_kind(kind: Seq<char>) -> bool {
    kind == "wheels"@ || kind == "checkin"@ || kind == "done"@ || kind == "parts"@ || kind
        == "generic"@
}

/// An event of the workshop; a kind that is not known is taken for the
/// general one.
pub open spec fn event_entry(said: Seq<char>, kind: Seq<char>, notify_key: Seq<char>) -> Result<
    Doc,
    (Status, Seq<char>),
> {
    if text::trimmed(said).len() == 0 {
        Err((Status::BadRequest, "text is required"@))
    } else {
        Ok(
            Doc::object().with("type"@, Doc::Str("event"@)).with(
                "kind"@,
                Doc::Str(
                    if is_event_kind(kind) {
                        kind
                    } else {
                        "generic"@
                    },
                ),
            ).with("notify_key"@, Doc::Str(text::trimmed(notify_key))).with(
                "text"@,
                Doc::Str(text::trimmed(said)),
            ),
        )
    }
}

pub fn post_chat_event(said: &str, kind: &str, notify_key: &str) -> (r: Result<Json, Failure>)
    ensures
        failure::outcome(r) == event_entry(said@, kind@, notify_key@),
{
    let body = text::trim(said);
    if body.as_str().is_empty() {
        return Err(fail(Status::BadRequest, "text is required"));
    }
    let known = text::same(kind, "wheels") || text::same(kind, "checkin") || text::same(kind, "done")
        || text::same(kind, "parts") || text::same(kind, "generic");
    let kind = if known {
        kind
    } else {
        "generic"
    };
    Ok(
        Json::object().with_text("type", "event").with_text("kind", kind).with_text(
            "notify_key",
            text::trim(notify_key).as_str(),
        ).with_text("text", body.as_str()),
    )
}

/// The answer to an entry that was stored.
pub open spec fn entry_stored(entry: Doc) -> Doc {
    failure::done().with("item"@, entry)
}

pub fn entry_answer(entry: Json) -> (r: Json)
    ensures
        r@ == entry_stored(entry@),
{
    failure::ok_answer().with("item", entry)
}

/// For how long a client counts as online after it was last heard of.
pub const PRESENCE_TTL_MS: u64 = 600_000;

/// Who was heard of, and when last. Nobody stands there twice.
pub struct Presence {
    entries: Vec<(String, u64)>,
}

type Call = (Seq<char>, u64);

spec fn calls_of(entries: Seq<(String, u64)>) -> Seq<Call> {
    entries.map_values(|e: (String, u64)| (e.0@, e.1))
}

spec fn caller() -> spec_fn(Call) -> Seq<char> {
    |c: Call| c.0
}

spec fn seen_in(calls: Seq<Call>) -> Map<Seq<char>, u64>
    decreases calls.len(),
{
    if calls.len() == 0 {
        Map::empty()
    } else {
        seen_in(calls.drop_last()).insert(calls.last().0, calls.last().1)
    }
}

impl Presence {
    #[verifier::type_invariant]
    spec fn no_one_twice(self) -> bool {
        lists::keys_differ(calls_of(self.entries@), caller())
    }
}

impl View for Presence {
    type V = Map<Seq<char>, u64>;

    closed spec fn view(&self) -> Map<Seq<char>, u64> {
        seen_in(calls_of(self.entries@))
    }
}

/// Nobody was heard of.
pub fn presence_map() -> (r: Presence)
    ensures
        r@ == Map::<Seq<char>, u64>::empty(),
{
    let entries: Vec<(String, u64)> = Vec::new();
    assert(calls_of(entries@) =~= Seq::<Call>::empty());
    Presence { entries }
}

/// The time from which on a client counts as online.
pub open spec fn online_since(now: u64) -> u64 {
    if now >= PRESENCE_TTL_MS {
        (now - PRESENCE_TTL_MS) as u64
    } else {
        0
    }
}

/// Who is heard of when a client calls; one without a name is not counted.
pub open spec fn heard(seen: Map<Seq<char>, u64>, client: Seq<char>, now: u64) -> Map<
    Seq<char>,
    u64,
> {
    if client.len() == 0 {
        seen
    } else {
        seen.insert(client, now)
    }
}

/// Who is online: those who were heard of since a time.
pub open spec fn online(seen: Map<Seq<char>, u64>, since: u64) -> Map<Seq<char>, u64> {
    Map::new(|k: Seq<char>| seen.dom().contains(k) && seen[k] >= since, |k: Seq<char>| seen[k])
}

/// Who was heard of, where no one stands in a list of calls twice: those in
/// the list, each at the time that stands there.
proof fn lemma_seen(calls: Seq<Call>)
    requires
        lists::keys_differ(calls, caller()),
    ensures
        forall|k: Seq<char>, t: u64| #[trigger]
            calls.contains((k, t)) <==> seen_in(calls).dom().contains(k) && seen_in(calls)[k] == t,
        seen_in(calls).dom().finite(),
        seen_in(calls).dom().len() == calls.len(),
    decreases calls.len(),
{
    if calls.len() > 0 {
        let front = calls.drop_last();
        let last = calls.last();
        assert(lists::keys_differ(front, caller())) by {
            assert forall|i: int, j: int| 0 <= i < j < front.len() implies caller()(
                #[trigger] front[i],
            ) != caller()(#[trigger] front[j]) by {
                assert(front[i] == calls[i] && front[j] == calls[j]);
            }
        }
        lemma_seen(front);
        let seen = seen_in(front);
        assert(!seen.dom().contains(last.0)) by {
            if seen.dom().contains(last.0) {
                assert(front.contains((last.0, seen[last.0])));
                let i = choose|i: int| 0 <= i < front.len() && front[i] == (last.0, seen[last.0]);
                assert(calls[i] == front[i]);
                assert(caller()(calls[i]) != caller()(calls[calls.len() - 1]));
            }
        }
        assert forall|k: Seq<char>, t: u64| #[trigger]
            calls.contains((k, t)) <==> seen_in(calls).dom().contains(k) && seen_in(calls)[k] == t by {
            if calls.contains((k, t)) {
                let i = choose|i: int| 0 <= i < calls.len() && calls[i] == (k, t);
                if i < front.len() {
                    assert(front[i] == (k, t));
                    assert(front.contains((k, t)));
                }
            }
            if front.contains((k, t)) {
                let i = choose|i: int| 0 <= i < front.len() && front[i] == (k, t);
                assert(calls[i] == (k, t));
            }
            assert(calls[calls.len() - 1] == last);
            assert(front.contains((k, t)) <==> seen.dom().contains(k) && seen[k] == t);
        }
    }
}

/// Whether a call stays when a client calls: it is of another client, and not
/// too old.
spec fn stays(client: Seq<char>, since: u64) -> spec_fn(Call) -> bool {
    |c: Call| c.1 >= since && (client.len() == 0 || c.0 != client)
}

/// The calls that stay, and the new one.
spec fn calls_after(calls: Seq<Call>, client: Seq<char>, now: u64, since: u64) -> Seq<Call> {
    let kept = calls.filter(stays(client, since));
    if client.len() == 0 {
        kept
    } else {
        kept.push((client, now))
    }
}

proof fn lemma_filter_differ(calls: Seq<Call>, keep: spec_fn(Call) -> bool)
    requires
        lists::keys_differ(calls, caller()),
    ensures
        lists::keys_differ(calls.filter(keep), caller()),
    decreases calls.len(),
{
    reveal(Seq::filter);
    if calls.len() > 0 {
        let front = calls.drop_last();
        assert(lists::keys_differ(front, caller())) by {
            assert forall|i: int, j: int| 0 <= i < j < front.len() implies caller()(
                #[trigger] front[i],
            ) != caller()(#[trigger] front[j]) by {
                assert(front[i] == calls[i] && front[j] == calls[j]);
            }
        }
        lemma_filter_differ(front, keep);
        let kept = front.filter(keep);
        assert forall|i: int| 0 <= i < kept.len() implies caller()(#[trigger] kept[i]) != caller()(
            calls.last(),
        ) by {
            lists::lemma_filter_holds(front, keep, kept[i]);
            assert(kept.contains(kept[i]));
            let j = choose|j: int| 0 <= j < front.len() && front[j] == kept[i];
            assert(caller()(calls[j]) != caller()(calls[calls.len() - 1]));
        }
    }
}

proof fn lemma_calls_after(calls: Seq<Call>, client: Seq<char>, now: u64, since: u64)
    requires
        lists::keys_differ(calls, caller()),
        since <= now,
    ensures
        lists::keys_differ(calls_after(calls, client, now, since), caller()),
        seen_in(calls_after(calls, client, now, since)) == online(
            heard(seen_in(calls), client, now),
            since,
        ),
{
    let keep = stays(client, since);
    let kept = calls.filter(keep);
    let after = calls_after(calls, client, now, since);
    lemma_seen(calls);
    lemma_filter_differ(calls, keep);
    assert(lists::keys_differ(after, caller())) by {
        assert forall|i: int, j: int| 0 <= i < j < after.len() implies caller()(
            #[trigger] after[i],
        ) != caller()(#[trigger] after[j]) by {
            if j < kept.len() {
                assert(after[i] == kept[i] && after[j] == kept[j]);
            } else {
                assert(after[i] == kept[i]);
                lists::lemma_filter_holds(calls, keep, kept[i]);
                assert(kept.contains(kept[i]));
                assert(keep(kept[i]));
            }
        }
    }
    lemma_seen(after);
    let got = seen_in(after);
    let want = online(heard(seen_in(calls), client, now), since);
    assert forall|k: Seq<char>, t: u64| #[trigger]
        after.contains((k, t)) <==> want.dom().contains(k) && want[k] == t by {
        lists::lemma_filter_holds(calls, keep, (k, t));
        assert(after.contains((k, t)) <==> got.dom().contains(k) && got[k] == t);
        assert(calls.contains((k, t)) <==> seen_in(calls).dom().contains(k) && seen_in(calls)[k]
            == t);
        assert(after.contains((k, t)) <==> kept.contains((k, t)) || (client.len() > 0 && (k, t) == (
            client,
            now,
        ))) by {
            if kept.contains((k, t)) {
                let i = choose|i: int| 0 <= i < kept.len() && kept[i] == (k, t);
                assert(after[i] == (k, t));
            }
            if client.len() > 0 {
                assert(after[kept.len() as int] == (client, now));
            }
            if after.contains((k, t)) {
                let i = choose|i: int| 0 <= i < after.len() && after[i] == (k, t);
                if i < kept.len() {
                    assert(kept[i] == (k, t));
                }
            }
        }
    }
    assert forall|k: Seq<char>|
        got.dom().contains(k) == #[trigger] want.dom().contains(k) && (got.dom().contains(k)
            ==> got[k] == want[k]) by {
        assert(after.contains((k, got[k])) <==> want.dom().contains(k) && want[k] == got[k]);
        assert(after.contains((k, want[k])) <==> got.dom().contains(k) && got[k] == want[k]);
    }
    assert(got =~= want);
}

fn drop_calls(entries: &Vec<(String, u64)>, client: &str, since: u64) -> (r: Vec<(String, u64)>)
    ensures
        calls_of(r@) == calls_of(entries@).filter(stays(client@, since)),
{
    let ghost all = calls_of(entries@);
    let ghost keep = stays(client@, since);
    let named = !client.is_empty();
    let mut out: Vec<(String, u64)> = Vec::new();
    let mut i: usize = 0;
    proof {
        lists::lemma_filter_none(keep);
        assert(all.take(0) =~= Seq::<Call>::empty());
        assert(calls_of(out@) =~= Seq::<Call>::empty());
    }
    while i < entries.len()
        invariant
            i <= entries@.len(),
            named == (client@.len() > 0),
            all == calls_of(entries@),
            keep == stays(client@, since),
            calls_of(out@) == all.take(i as int).filter(keep),
        decreases entries@.len() - i,
    {
        let who = entries[i].0.as_str();
        let when = entries[i].1;
        proof {
            lists::lemma_filter_step(all, i as int, keep);
            assert(all[i as int] == (who@, when));
        }
        if when >= since && !(named && text::same(who, client)) {
            let ghost before = out@;
            let entry = (who.to_owned(), when);
            out.push(entry);
            assert(calls_of(out@) =~= calls_of(before).push((who@, when)));
        }
        i = i + 1;
    }
    assert(all.take(i as int) =~= all);
    out
}

/// A client calls: who is heard of is brought up to date, and those who are
/// online are counted.
pub fn touch_and_count_presence(presence: &mut Presence, client_id: &str, now: u64) -> (r: u64)
    ensures
        final(presence)@ == online(heard(old(presence)@, client_id@, now), online_since(now)),
        r == final(presence)@.dom().len(),
{
    proof {
        use_type_invariant(&*presence);
    }
    let since: u64 = if now >= PRESENCE_TTL_MS {
        now - PRESENCE_TTL_MS
    } else {
        0
    };
    let ghost before = calls_of(presence.entries@);
    let mut entries = drop_calls(&presence.entries, client_id, since);
    if !client_id.is_empty() {
        let ghost kept = entries@;
        let entry = (client_id.to_owned(), now);
        entries.push(entry);
        assert(calls_of(entries@) =~= calls_of(kept).push((client_id@, now)));
    }
    proof {
        assert(calls_of(entries@) == calls_after(before, client_id@, now, since));
        lemma_calls_after(before, client_id@, now, since);
        lemma_seen(calls_of(entries@));
    }
    let count = entries.len() as u64;
    *presence = Presence { entries };
    count
}

/// A new entry is later than all before it, and its id says when it is from.
pub proof fn law_feed_advances(feed: Seq<Doc>, entry: Doc, now: u64, i: int)
    requires
        entry.is_object(),
        next_ts(feed, now) <= u64::MAX,
        0 <= i < feed.len(),
    ensures
        entry_stamped(entry, next_ts(feed, now)).whole_at("ts"@) == Some(
            next_ts(feed, now) as u64,
        ),
        next_ts(feed, now) >= now,
        feed[i].whole_at("ts"@) matches Some(n) ==> n < next_ts(feed, now),
        entry_stamped(entry, next_ts(feed, now)).text_at("id"@) == Some(
            names::stamped("m-"@, next_ts(feed, now) as nat),
        ),
{
    lemma_entry_stamped(entry, next_ts(feed, now));
    lemma_last_ts(feed, i);
}

proof fn lemma_last_ts(feed: Seq<Doc>, i: int)
    requires
        0 <= i < feed.len(),
    ensures
        feed[i].whole_at("ts"@) matches Some(n) ==> n <= last_ts(feed),
    decreases feed.len(),
{
    if i < feed.len() - 1 {
        lemma_last_ts(feed.drop_last(), i);
        assert(feed.drop_last()[i] == feed[i]);
    }
}

proof fn lemma_entry_stamped(entry: Doc, ts: int)
    requires
        entry.is_object(),
        0 <= ts <= u64::MAX,
    ensures
        entry_stamped(entry, ts).whole_at("ts"@) == Some(ts as u64),
        entry_stamped(entry, ts).text_at("id"@) == Some(names::stamped("m-"@, ts as nat)),
{
    reveal_strlit("id");
    reveal_strlit("ts");
    assert("id"@[0] != "ts"@[0]);
}

/// A client that has the feed up to some entry gets every later one: what was
/// appended is among the news for all that the feed held before.
pub proof fn law_appended_is_news(feed: Seq<Doc>, entry: Doc, now: u64, since: u64)
    requires
        entry.is_object(),
        next_ts(feed, now) <= u64::MAX,
        since <= last_ts(feed),
    ensures
        feed.push(entry_stamped(entry, next_ts(feed, now))).filter(
            |e: Doc| is_news(e, since),
        ) == feed.filter(|e: Doc| is_news(e, since)).push(entry_stamped(entry, next_ts(feed, now))),
{
    lemma_entry_stamped(entry, next_ts(feed, now));
    lists::lemma_filter_push(
        feed,
        entry_stamped(entry, next_ts(feed, now)),
        |e: Doc| is_news(e, since),
    );
}

/// Nothing is deleted from the feed unless the settings ask for it and name a
/// span; and then exactly what is older than the span.
pub proof fn law_retention(feed: Seq<Doc>, settings: Option<Doc>, now: nat, e: Doc)
    ensures
        feed_kept(feed, settings, now).contains(e) <==> feed.contains(e) && !(settings is Some
            && settings->0.flag_at("chat_retention_delete"@) && cutoff_of(settings, now) is Some
            && !is_recent(e, cutoff_of(settings, now)->0)),
        hours_kept(
            match settings {
                Some(s) => s,
                None => Doc::Null,
            },
        ) == 0 ==> feed_kept(feed, settings, now) == feed,
{
    if let Some(cutoff) = cutoff_of(settings, now) {
        lists::lemma_filter_holds(feed, |e: Doc| is_recent(e, cutoff), e);
    }
}

/// A client that calls is online, and stays so until it is not heard of for
/// the whole span.
pub proof fn law_online(seen: Map<Seq<char>, u64>, client: Seq<char>, now: u64, later: u64)
    requires
        client.len() > 0,
        now <= later,
    ensures
        online(heard(seen, client, now), online_since(now)).dom().contains(client),
        online(heard(seen, client, now), online_since(later)).dom().contains(client) <==> later
            - now <= PRESENCE_TTL_MS,
{
}

/// No two of these names are the same.
proof fn lemma_chat_names()
    ensures
        "id"@.len() == 2,
        "ts"@.len() == 2,
        "type"@.len() == 4,
        "author"@.len() == 6,
        "text"@.len() == 4,
        "kind"@.len() == 4,
        "notify_key"@.len() == 10,
        "item"@.len() == 4,
        "items"@.len() == 5,
        "ok"@.len() == 2,
        "online"@.len() == 6,
        "id"@ != "ts"@,
        "id"@ != "ok"@,
        "ts"@ != "ok"@,
        "type"@ != "text"@,
        "type"@ != "kind"@,
        "type"@ != "item"@,
        "author"@ != "online"@,
        "text"@ != "kind"@,
        "text"@ != "item"@,
        "kind"@ != "item"@,
{
    reveal_strlit("id");
    reveal_strlit("ts");
    reveal_strlit("type");
    reveal_strlit("author");
    reveal_strlit("text");
    reveal_strlit("kind");
    reveal_strlit("notify_key");
    reveal_strlit("item");
    reveal_strlit("items");
    reveal_strlit("ok");
    reveal_strlit("online");
    assert("id"@[0] != "ts"@[0]);
    assert("id"@[0] != "ok"@[0]);
    assert("ts"@[0] != "ok"@[0]);
    assert("type"@[1] != "text"@[1]);
    assert("type"@[0] != "kind"@[0]);
    assert("type"@[0] != "item"@[0]);
    assert("author"@[0] != "online"@[0]);
    assert("text"@[0] != "kind"@[0]);
    assert("text"@[0] != "item"@[0]);
    assert("kind"@[0] != "item"@[0]);
}

/// The time for which messages are kept, in hours: a month is thirty days. A
/// span that is not a whole number from one up counts for nothing.
pub proof fn law_hours_kept(settings: Doc, months: int, days: int, hours: int)
    requires
        i64::MIN <= months <= i64::MAX,
        i64::MIN <= days <= i64::MAX,
        i64::MIN <= hours <= i64::MAX,
        settings.get("chat_retention_months"@) == Some(Doc::num(months)),
        settings.get("chat_retention_days"@) == Some(Doc::num(days)),
        settings.get("chat_retention_hours"@) == Some(Doc::num(hours)),
    ensures
        hours_kept(settings) == if months > 0 {
            months * 30 * 24
        } else {
            0int
        } + if days > 0 {
            days * 24
        } else {
            0int
        } + if hours > 0 {
            hours
        } else {
            0int
        },
{
}

/// A span that is missing, or is no whole number, counts for nothing.
pub proof fn law_span_missing(settings: Doc, k: Seq<char>)
    requires
        !settings.has(k) || settings.get(k)->0.integer() is None,
    ensures
        span_in(settings, k) == 0,
{
}

/// Nothing is too old where no time is set; otherwise what lies further back
/// than the hours that are kept is.
pub proof fn law_cutoff(settings: Doc, now: nat)
    ensures
        cutoff_of(None, now) is None,
        hours_kept(settings) == 0 ==> cutoff_of(Some(settings), now) is None,
        hours_kept(settings) > 0 ==> (cutoff_of(Some(settings), now) matches Some(t) && (t
            + hours_kept(settings) * 60 * 60 * 1000 == now || (t == 0 && now < hours_kept(settings)
            * 60 * 60 * 1000))),
{
}

/// An entry goes where deleting is asked for and its time lies before the
/// cutoff; one without a time stays.
pub proof fn law_kept(feed: Seq<Doc>, settings: Doc, now: nat, e: Doc)
    ensures
        !settings.flag_at("chat_retention_delete"@) ==> feed_kept(feed, Some(settings), now) == feed,
        feed_kept(feed, None, now) == feed,
        cutoff_of(Some(settings), now) is None ==> feed_kept(feed, Some(settings), now) == feed,
        settings.flag_at("chat_retention_delete"@) ==> (cutoff_of(Some(settings), now) matches Some(
            t,
        ) ==> feed_kept(feed.push(e), Some(settings), now) == if e.whole_at("ts"@) is Some
            && e.whole_or("ts"@, 0) < t {
            feed_kept(feed, Some(settings), now)
        } else {
            feed_kept(feed, Some(settings), now).push(e)
        }),
        feed_kept(Seq::<Doc>::empty(), Some(settings), now) == Seq::<Doc>::empty(),
{
    if let Some(t) = cutoff_of(Some(settings), now) {
        lists::lemma_filter_push(feed, e, |x: Doc| is_recent(x, t));
        lists::lemma_filter_none(|x: Doc| is_recent(x, t));
    }
}

/// What is answered to a client: the entries later than what it knows, in
/// their order, and how many are online.
pub proof fn law_feed_answer(feed: Seq<Doc>, since: u64, online: u64, e: Doc)
    ensures
        feed_answer(feed, since, online).whole_at("online"@) == Some(online),
        feed_answer(Seq::<Doc>::empty(), since, online).items_at("items"@) == Some(
            Seq::<Doc>::empty(),
        ),
        feed_answer(feed, since, online).items_at("items"@) is Some,
        feed_answer(feed.push(e), since, online).items_at("items"@) == Some(
            if e.whole_at("ts"@) is Some && e.whole_or("ts"@, 0) > since {
                feed_answer(feed, since, online).items_at("items"@)->0.push(e)
            } else {
                feed_answer(feed, since, online).items_at("items"@)->0
            },
        ),
{
    lemma_chat_names();
    lists::lemma_filter_push(feed, e, |x: Doc| is_news(x, since));
    lists::lemma_filter_none(|x: Doc| is_news(x, since));
}

proof fn lemma_last_ts_is(feed: Seq<Doc>)
    ensures
        last_ts(feed) == 0 || exists|i: int|
            0 <= i < feed.len() && (#[trigger] feed[i]).whole_at("ts"@) == Some(last_ts(feed)),
    decreases feed.len(),
{
    if feed.len() > 0 {
        let front = feed.drop_last();
        lemma_last_ts_is(front);
        if last_ts(feed) != 0 {
            if feed.last().whole_at("ts"@) == Some(last_ts(feed)) {
                assert(feed[feed.len() - 1].whole_at("ts"@) == Some(last_ts(feed)));
            } else {
                let i = choose|i: int|
                    0 <= i < front.len() && (#[trigger] front[i]).whole_at("ts"@) == Some(
                        last_ts(front),
                    );
                assert(feed[i] == front[i]);
            }
        }
    }
}

/// An entry gets the time of the clock where that is later than all times in
/// the feed, and one more than the latest where it is not.
pub proof fn law_next_ts(feed: Seq<Doc>, now: u64)
    ensures
        (forall|i: int|
            0 <= i < feed.len() && (#[trigger] feed[i]).whole_at("ts"@) is Some ==> feed[i].whole_or(
                "ts"@,
                0,
            ) < now) && now > 0 ==> next_ts(feed, now) == now,
        forall|i: int|
            0 <= i < feed.len() && (#[trigger] feed[i]).whole_at("ts"@) is Some ==> feed[i].whole_or(
                "ts"@,
                0,
            ) < next_ts(feed, now),
        next_ts(feed, now) == now || next_ts(feed, now) == 1 || exists|i: int|
            0 <= i < feed.len() && (#[trigger] feed[i]).whole_at("ts"@) is Some && feed[i].whole_or(
                "ts"@,
                0,
            ) + 1 == next_ts(feed, now),
        next_ts(feed, now) >= now,
{
    lemma_last_ts_is(feed);
    assert forall|i: int|
        0 <= i < feed.len() && (#[trigger] feed[i]).whole_at("ts"@) is Some implies feed[i].whole_or(
        "ts"@,
        0,
    ) < next_ts(feed, now) by {
        lemma_last_ts(feed, i);
    }
    if last_ts(feed) != 0 {
        let i = choose|i: int|
            0 <= i < feed.len() && (#[trigger] feed[i]).whole_at("ts"@) == Some(last_ts(feed));
        assert(feed[i].whole_or("ts"@, 0) == last_ts(feed));
    }
}

/// An entry that is put in the feed has its time, and an id made of it; the
/// rest stays.
pub proof fn law_entry_stamped(entry: Doc, ts: u64, k: Seq<char>)
    requires
        entry.is_object(),
    ensures
        entry_stamped(entry, ts as int).whole_at("ts"@) == Some(ts),
        entry_stamped(entry, ts as int).text_at("id"@) == Some(
            seq!['m', '-'] + crate::digits::decimal(ts as nat),
        ),
        k != "ts"@ && k != "id"@ ==> entry_stamped(entry, ts as int).get(k) == entry.get(k),
        entry_stored(entry).get("ok"@) == Some(Doc::Bool(true)),
        entry_stored(entry).get("item"@) == Some(entry),
{
    lemma_chat_names();
    reveal_strlit("m-");
    assert("m-"@ =~= seq!['m', '-']);
}

/// A message that is posted: its author and its text, without the space around
/// them. One without a text is refused.
pub proof fn law_message(said: Seq<char>, author: Seq<char>, k: Seq<char>)
    ensures
        text::trimmed(said).len() == 0 ==> message_entry(said, author) == Err::<
            Doc,
            (Status, Seq<char>),
        >((Status::BadRequest, "text is required"@)),
        text::trimmed(said).len() > 0 ==> (message_entry(said, author) matches Ok(d) && d.text_at(
            "type"@,
        ) == Some("msg"@) && d.text_at("author"@) == Some(text::trimmed(author)) && d.text_at(
            "text"@,
        ) == Some(text::trimmed(said)) && (d.has(k) ==> k == "type"@ || k == "author"@ || k
            == "text"@)),
{
    lemma_chat_names();
}

/// An event that is posted: its text, its kind, and the key by which it is
/// known. There are five kinds; what is none of them is the last.
pub proof fn law_event(said: Seq<char>, kind: Seq<char>, key: Seq<char>, k: Seq<char>)
    ensures
        text::trimmed(said).len() == 0 ==> event_entry(said, kind, key) == Err::<
            Doc,
            (Status, Seq<char>),
        >((Status::BadRequest, "text is required"@)),
        text::trimmed(said).len() > 0 ==> (event_entry(said, kind, key) matches Ok(d) && d.text_at(
            "type"@,
        ) == Some("event"@) && d.text_at("notify_key"@) == Some(text::trimmed(key)) && d.text_at(
            "text"@,
        ) == Some(text::trimmed(said)) && (kind == "wheels"@ || kind == "checkin"@ || kind == "done"@
            || kind == "parts"@ || kind == "generic"@ ==> d.text_at("kind"@) == Some(kind)) && (kind
            != "wheels"@ && kind != "checkin"@ && kind != "done"@ && kind != "parts"@ && kind
            != "generic"@ ==> d.text_at("kind"@) == Some("generic"@)) && (d.has(k) ==> k == "type"@
            || k == "kind"@ || k == "notify_key"@ || k == "text"@)),
{
    lemma_chat_names();
}

/// Who is online: each client that was heard of within ten minutes, and the one
/// that is heard of now, with the time of it.
pub proof fn law_who_is_online(seen: Map<Seq<char>, u64>, client: Seq<char>, now: u64, c: Seq<char>)
    ensures
        c.len() > 0 && c == client ==> online(heard(seen, client, now), online_since(now)).dom()
            .contains(c) && online(heard(seen, client, now), online_since(now))[c] == now,
        c != client ==> (online(heard(seen, client, now), online_since(now)).dom().contains(c)
            <==> seen.dom().contains(c) && seen[c] + 10 * 60 * 1000 >= now),
        client.len() == 0 ==> (online(heard(seen, client, now), online_since(now)).dom().contains(c)
            <==> seen.dom().contains(c) && seen[c] + 10 * 60 * 1000 >= now),
        c != client && online(heard(seen, client, now), online_since(now)).dom().contains(c)
            ==> online(heard(seen, client, now), online_since(now))[c] == seen[c],
{
}

/// What is answered to a client that may know nothing yet.
pub open spec fn feed_shown(feed: Seq<Doc>, since: Option<u64>, online: u64) -> Doc {
    feed_answer(
        feed,
        match since {
            Some(n) => n,
            None => 0,
        },
        online,
    )
}

/// A client gets the entries later than the last that it knows; one that knows
/// none gets all that have a time.
pub proof fn law_feed_shown(feed: Seq<Doc>, since: Option<u64>, online: u64, e: Doc)
    ensures
        feed_shown(feed, since, online).items_at("items"@) matches Some(v) && (v.contains(e)
            <==> feed.contains(e) && e.whole_or("ts"@, 0) > match since {
            Some(n) => n,
            None => 0,
        }),
        feed_shown(feed, since, online).whole_at("online"@) == Some(online),
{
    lemma_chat_names();
    let n: u64 = match since {
        Some(n) => n,
        None => 0,
    };
    lists::lemma_filter_holds(feed, |x: Doc| is_news(x, n), e);
}

} // verus!
