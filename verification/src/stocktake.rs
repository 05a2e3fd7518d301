//! Taking stock: a file of scanned codes is held against the store, and the
//! counts that follow are reported and written.
use crate::digits;
use crate::failure;
use crate::json;
use crate::json::{Doc, Json};
use crate::lists;
use crate::order;
use crate::order::Ranking;
use crate::store;
use crate::text;
use vstd::prelude::*;

verus! {

/// A code, and how often it was scanned.
pub struct Scan {
    pub code: String,
    pub count: i64,
}

/// A code, and how often it was scanned.
pub struct ScanDoc {
    pub code: Seq<char>,
    pub count: i64,
}

impl View for Scan {
    type V = ScanDoc;

    open spec fn view(&self) -> ScanDoc {
        ScanDoc { code: self.code@, count: self.count }
    }
}

pub open spec fn scan_docs(v: Seq<Scan>) -> Seq<ScanDoc> {
    v.map_values(|s: Scan| s@)
}

/// Whether a line of the file holds a scan: it is not empty and no comment.
pub open spec fn is_scan_line(line: Seq<char>) -> bool {
    let s = text::trimmed(line);
    s.len() > 0 && s[0] != '#'
}

/// The words of a line, between commas and white space.
pub open spec fn words_of(line: Seq<char>) -> Seq<Seq<char>> {
    text::pieces(text::trimmed(line), text::Cut::CommaOrSpace).filter(
        |w: Seq<char>| w.len() > 0,
    )
}

/// How often a line counts: as often as its second word says, where that is a
/// number above zero, and else once.
pub open spec fn count_on(words: Seq<Seq<char>>) -> i64 {
    if words.len() >= 2 {
        match digits::read_signed(words[1]) {
            Some(n) if n > 0 => n,
            _ => 1,
        }
    } else {
        1
    }
}

/// The scan on a line: its first word, and how often it counts.
pub open spec fn scan_on(line: Seq<char>) -> Option<ScanDoc> {
    if is_scan_line(line) && words_of(line).len() > 0 {
        Some(ScanDoc { code: words_of(line)[0], count: count_on(words_of(line)) })
    } else {
        None
    }
}

pub open spec fn lines_of(file: Seq<char>) -> Seq<Seq<char>> {
    text::pieces(file, text::Cut::Line)
}

/// The scans in a file.
pub open spec fn scans_in(file: Seq<char>) -> Seq<ScanDoc> {
    lists::picked(lines_of(file), |l: Seq<char>| scan_on(l))
}

/// How many lines of a file hold a scan.
pub open spec fn scan_lines(file: Seq<char>) -> nat {
    lines_of(file).filter(|l: Seq<char>| is_scan_line(l)).len()
}

/// How often anything was scanned.
pub open spec fn total_of(scans: Seq<ScanDoc>) -> int
    decreases scans.len(),
{
    if scans.len() == 0 {
        0
    } else {
        total_of(scans.drop_last()) + scans.last().count
    }
}

/// How often a code was scanned.
pub open spec fn times_scanned(scans: Seq<ScanDoc>, code: Seq<char>) -> int
    decreases scans.len(),
{
    if scans.len() == 0 {
        0
    } else {
        times_scanned(scans.drop_last(), code) + if scans.last().code == code {
            scans.last().count as int
        } else {
            0
        }
    }
}

/// The codes that were scanned, each once.
pub open spec fn codes_of(scans: Seq<ScanDoc>) -> Seq<Seq<char>> {
    lists::first_seen(scans.map_values(|s: ScanDoc| s.code))
}

/// A code of an item, as scans are held against it.
pub open spec fn match_item(d: Doc) -> Option<Seq<char>> {
    match d.text() {
        Some(s) => if text::lowered(text::trimmed(s)).len() > 0 {
            Some(text::lowered(text::trimmed(s)))
        } else {
            None
        },
        None => None,
    }
}

/// The codes of an item, as scans are held against them.
pub open spec fn match_codes(item: Doc) -> Seq<Seq<char>> {
    match item.items_at("barcodes"@) {
        Some(v) => lists::picked(v, |d: Doc| match_item(d)),
        None => Seq::<Seq<char>>::empty(),
    }
}

/// The place of the item that has a code; where several have it, the last.
pub open spec fn place_with(items: Seq<Doc>, key: Seq<char>) -> Option<int>
    decreases items.len(),
{
    if items.len() == 0 {
        None
    } else if match_codes(items.last()).contains(key) {
        Some(items.len() - 1)
    } else {
        place_with(items.drop_last(), key)
    }
}

/// The codes of all items, one item after the other.
pub open spec fn codes_on(items: Seq<Doc>) -> Seq<Seq<char>>
    decreases items.len(),
{
    if items.len() == 0 {
        Seq::<Seq<char>>::empty()
    } else {
        codes_on(items.drop_last()) + match_codes(items.last())
    }
}

/// Whether a code stands on more than one item: which of them was scanned
/// cannot be told.
pub open spec fn is_shared(items: Seq<Doc>, code: Seq<char>) -> bool {
    exists|i: int, j: int|
        0 <= i < j < items.len() && #[trigger] match_codes(items[i]).contains(code)
            && #[trigger] match_codes(items[j]).contains(code)
}

/// The codes that stand on more than one item, each once.
pub open spec fn shared_codes(items: Seq<Doc>) -> Seq<Seq<char>> {
    lists::first_seen(codes_on(items)).filter(|c: Seq<char>| is_shared(items, c))
}

/// The place of the item that a scanned code belongs to.
pub open spec fn item_for(items: Seq<Doc>, code: Seq<char>) -> Option<int> {
    place_with(items, text::lowered(code))
}

/// How often the codes of an item were scanned.
pub open spec fn item_count(scans: Seq<ScanDoc>, items: Seq<Doc>, i: int) -> int
    decreases scans.len(),
{
    if scans.len() == 0 {
        0
    } else {
        item_count(scans.drop_last(), items, i) + if item_for(items, scans.last().code) == Some(i) {
            scans.last().count as int
        } else {
            0
        }
    }
}

/// The count that an item has on record.
pub open spec fn count_before(item: Doc) -> i64 {
    match item.get("current_count"@) {
        Some(v) => match v.integer() {
            Some(n) => n,
            None => 0,
        },
        None => 0,
    }
}

/// A line of the report: an item, its count on record and its new count.
pub open spec fn count_row(item: Doc, now: int) -> Doc {
    Doc::object().with("id"@, Doc::Str(item.text_in("id"@))).with(
        "name"@,
        Doc::Str(item.text_in("name"@)),
    ).with("id_number"@, Doc::Str(item.text_in("id_number"@))).with(
        "was"@,
        Doc::num(count_before(item) as int),
    ).with("now"@, Doc::num(now)).with("diff"@, Doc::num(now - count_before(item)))
}

/// The lines for those of the first `n` items that were scanned.
pub open spec fn found_rows(scans: Seq<ScanDoc>, items: Seq<Doc>, n: nat) -> Seq<Doc>
    decreases n,
{
    if n == 0 {
        Seq::<Doc>::empty()
    } else {
        let before = found_rows(scans, items, (n - 1) as nat);
        let now = item_count(scans, items, n - 1);
        if now > 0 {
            before.push(count_row(items[n - 1], now))
        } else {
            before
        }
    }
}

/// Whether an item has a count on record and was not scanned.
pub open spec fn went_missing(scans: Seq<ScanDoc>, items: Seq<Doc>, i: int) -> bool {
    item_count(scans, items, i) == 0 && count_before(items[i]) != 0
}

/// The lines for those of the first `n` items that went missing.
pub open spec fn missing_rows(scans: Seq<ScanDoc>, items: Seq<Doc>, n: nat) -> Seq<Doc>
    decreases n,
{
    if n == 0 {
        Seq::<Doc>::empty()
    } else {
        let before = missing_rows(scans, items, (n - 1) as nat);
        if went_missing(scans, items, n - 1) {
            before.push(count_row(items[n - 1], 0))
        } else {
            before
        }
    }
}

/// A list of new counts with that of an item, where it has an id.
pub open spec fn target_added(targets: Seq<(Seq<char>, int)>, item: Doc, now: int) -> Seq<
    (Seq<char>, int),
> {
    match item.text_at("id"@) {
        Some(id) => targets.push((id, now)),
        None => targets,
    }
}

/// The new counts of those of the first `n` items that were scanned.
pub open spec fn found_targets(scans: Seq<ScanDoc>, items: Seq<Doc>, n: nat) -> Seq<
    (Seq<char>, int),
>
    decreases n,
{
    if n == 0 {
        Seq::<(Seq<char>, int)>::empty()
    } else {
        let before = found_targets(scans, items, (n - 1) as nat);
        let now = item_count(scans, items, n - 1);
        if now > 0 {
            target_added(before, items[n - 1], now)
        } else {
            before
        }
    }
}

/// The new counts of those of the first `n` items that went missing.
pub open spec fn missing_targets(scans: Seq<ScanDoc>, items: Seq<Doc>, n: nat) -> Seq<
    (Seq<char>, int),
>
    decreases n,
{
    if n == 0 {
        Seq::<(Seq<char>, int)>::empty()
    } else {
        let before = missing_targets(scans, items, (n - 1) as nat);
        if went_missing(scans, items, n - 1) {
            target_added(before, items[n - 1], 0)
        } else {
            before
        }
    }
}

/// The new counts to write. Where the whole store was scanned, what went
/// missing has none left; else it is left alone.
pub open spec fn targets_of(scans: Seq<ScanDoc>, items: Seq<Doc>, strict: bool) -> Seq<
    (Seq<char>, int),
> {
    let found = found_targets(scans, items, items.len());
    if strict {
        found + missing_targets(scans, items, items.len())
    } else {
        found
    }
}

/// The order of names, whatever the case of their letters.
pub open spec fn by_lower_name() -> spec_fn(Doc, Doc) -> bool {
    |a: Doc, b: Doc|
        text::in_order(text::lowered(a.text_in("name"@)), text::lowered(b.text_in("name"@)))
}

/// The order of codes that belong to nothing: the most frequent first, and
/// among equals by code.
pub open spec fn by_frequency() -> spec_fn(ScanDoc, ScanDoc) -> bool {
    |a: ScanDoc, b: ScanDoc|
        a.count > b.count || (a.count == b.count && text::in_order(a.code, b.code))
}

/// The codes that belong to nothing.
pub open spec fn stray_codes(scans: Seq<ScanDoc>, items: Seq<Doc>) -> Seq<Seq<char>> {
    codes_of(scans).filter(|c: Seq<char>| item_for(items, c) is None)
}

/// The codes that belong to nothing, and how often each was scanned.
pub open spec fn strays(scans: Seq<ScanDoc>, items: Seq<Doc>) -> Seq<ScanDoc> {
    stray_codes(scans, items).map_values(
        |c: Seq<char>| ScanDoc { code: c, count: times_scanned(scans, c) as i64 },
    )
}

pub open spec fn stray_row(s: ScanDoc) -> Doc {
    Doc::object().with("code"@, Doc::Str(s.code)).with("count"@, Doc::num(s.count as int))
}

/// Whether every number of the report fits.
pub open spec fn counts_fit(scans: Seq<ScanDoc>, items: Seq<Doc>, strict: bool) -> bool {
    &&& total_of(scans) <= i64::MAX
    &&& forall|i: int|
        0 <= i < items.len() && #[trigger] item_count(scans, items, i) > 0 ==> item_count(
            scans,
            items,
            i,
        ) - count_before(items[i]) <= i64::MAX
    &&& strict ==> forall|i: int|
        0 <= i < items.len() && #[trigger] item_count(scans, items, i) == 0 ==> count_before(
            items[i],
        ) != i64::MIN
}

/// What a stocktake finds.
pub struct Plan {
    pub strict: bool,
    pub lines_parsed: u64,
    pub total_scans: i64,
    pub unique_codes: u64,
    pub items_matched: u64,
    pub updates: Vec<Json>,
    pub unmatched: Vec<Json>,
    pub not_scanned: Vec<Json>,
    pub shared: Vec<String>,
    pub targets: Vec<(String, i64)>,
}

/// What a stocktake finds.
pub struct PlanDoc {
    pub strict: bool,
    pub lines_parsed: int,
    pub total_scans: int,
    pub unique_codes: int,
    pub items_matched: int,
    pub updates: Seq<Doc>,
    pub unmatched: Seq<Doc>,
    pub not_scanned: Seq<Doc>,
    pub shared: Seq<Seq<char>>,
    pub targets: Seq<(Seq<char>, int)>,
}

pub open spec fn target_docs(v: Seq<(String, i64)>) -> Seq<(Seq<char>, int)> {
    v.map_values(|t: (String, i64)| (t.0@, t.1 as int))
}

impl View for Plan {
    type V = PlanDoc;

    open spec fn view(&self) -> PlanDoc {
        PlanDoc {
            strict: self.strict,
            lines_parsed: self.lines_parsed as int,
            total_scans: self.total_scans as int,
            unique_codes: self.unique_codes as int,
            items_matched: self.items_matched as int,
            updates: json::docs(self.updates@),
            unmatched: json::docs(self.unmatched@),
            not_scanned: json::docs(self.not_scanned@),
            shared: text::texts(self.shared@),
            targets: target_docs(self.targets@),
        }
    }
}

/// What a stocktake finds.
pub open spec fn plan_of(file: Seq<char>, items: Seq<Doc>, strict: bool) -> PlanDoc {
    let scans = scans_in(file);
    let found = found_rows(scans, items, items.len());
    PlanDoc {
        strict,
        lines_parsed: scan_lines(file) as int,
        total_scans: total_of(scans),
        unique_codes: codes_of(scans).len() as int,
        items_matched: found.len() as int,
        updates: order::ranked(found, by_lower_name()),
        unmatched: order::ranked(strays(scans, items), by_frequency()).map_values(
            |s: ScanDoc| stray_row(s),
        ),
        not_scanned: if strict {
            order::ranked(missing_rows(scans, items, items.len()), by_lower_name())
        } else {
            Seq::<Doc>::empty()
        },
        shared: shared_codes(items),
        targets: targets_of(scans, items, strict),
    }
}

/// Whether what was not scanned is gone: unless only a part of the store was
/// scanned.
pub open spec fn is_strict(mode: Option<Seq<char>>) -> bool {
    match mode {
        Some(m) => text::lowered(text::trimmed(m)) != "partial"@,
        None => true,
    }
}

fn parse_words(line: &str) -> (r: Vec<String>)
    ensures
        text::texts(r@) == words_of(line@),
{
    let parts = text::split(text::trim(line).as_str(), text::Cut::CommaOrSpace);
    let ghost all = text::texts(parts@);
    let ghost keep = |w: Seq<char>| w.len() > 0;
    let mut out: Vec<String> = Vec::new();
    let mut i: usize = 0;
    proof {
        lists::lemma_filter_none(keep);
        assert(all.take(0) =~= Seq::<Seq<char>>::empty());
        assert(text::texts(out@) =~= Seq::<Seq<char>>::empty());
    }
    while i < parts.len()
        invariant
            i <= parts@.len(),
            all == text::texts(parts@),
            keep == (|w: Seq<char>| w.len() > 0),
            text::texts(out@) == all.take(i as int).filter(keep),
        decreases parts@.len() - i,
    {
        proof {
            lists::lemma_filter_step(all, i as int, keep);
            assert(all[i as int] == parts@[i as int]@);
        }
        if !parts[i].as_str().is_empty() {
            let ghost before = out@;
            let copy = parts[i].clone();
            out.push(copy);
            assert(text::texts(out@) =~= text::texts(before).push(copy@));
        }
        i = i + 1;
    }
    assert(all.take(i as int) =~= all);
    out
}

fn holds_scan(line: &str) -> (r: bool)
    ensures
        r == is_scan_line(line@),
{
    let cs = text::chars_of(text::trim(line).as_str());
    cs.len() > 0 && cs[0] != '#'
}

fn parse_line(line: &str) -> (r: Option<Scan>)
    ensures
        match r {
            Some(s) => scan_on(line@) == Some(s@),
            None => scan_on(line@) is None,
        },
{
    if !holds_scan(line) {
        return None;
    }
    let words = parse_words(line);
    let ghost all = text::texts(words@);
    if words.len() == 0 {
        return None;
    }
    assert(all[0] == words@[0]@);
    let mut count: i64 = 1;
    if words.len() >= 2 {
        assert(all[1] == words@[1]@);
        if let Some(n) = digits::parse_i64(words[1].as_str()) {
            if n > 0 {
                count = n;
            }
        }
    }
    Some(Scan { code: words[0].clone(), count })
}

proof fn lemma_total_grows(scans: Seq<ScanDoc>, i: int)
    requires
        0 <= i <= scans.len(),
        forall|k: int| 0 <= k < scans.len() ==> (#[trigger] scans[k]).count > 0,
    ensures
        0 <= total_of(scans.take(i)) <= total_of(scans),
    decreases scans.len(),
{
    if scans.len() == 0 {
        assert(scans.take(i) =~= scans);
    } else if i == scans.len() {
        assert(scans.take(i) =~= scans);
        lemma_total_grows(scans.drop_last(), scans.len() - 1);
        assert(scans.drop_last().take(scans.len() - 1) =~= scans.drop_last());
        assert(scans[scans.len() - 1].count > 0);
    } else {
        lemma_total_grows(scans.drop_last(), i);
        assert(scans.drop_last().take(i) =~= scans.take(i));
        assert(scans[scans.len() - 1].count > 0);
    }
}

/// Every scan counts at least once.
proof fn lemma_scans_count(file: Seq<char>)
    ensures
        forall|k: int| 0 <= k < scans_in(file).len() ==> (#[trigger] scans_in(file)[k]).count > 0,
{
    let f = |l: Seq<char>| scan_on(l);
    assert forall|k: int| 0 <= k < scans_in(file).len() implies (
    #[trigger] scans_in(file)[k]).count > 0 by {
        lists::lemma_picked_from(lines_of(file), f, k);
        let j = choose|j: int|
            0 <= j < lines_of(file).len() && f(#[trigger] lines_of(file)[j]) == Some(
                scans_in(file)[k],
            );
        assert(scan_on(lines_of(file)[j]) == Some(scans_in(file)[k]));
    }
}

/// The scans in a file, and how many lines hold one.
fn parse_scans(file: &str) -> (r: (Vec<Scan>, u64))
    ensures
        scan_docs(r.0@) == scans_in(file@),
        r.1 == scan_lines(file@),
{
    let lines = text::split(file, text::Cut::Line);
    let ghost all = text::texts(lines@);
    let ghost f = |l: Seq<char>| scan_on(l);
    let ghost keep = |l: Seq<char>| is_scan_line(l);
    let mut out: Vec<Scan> = Vec::new();
    let mut parsed: usize = 0;
    let mut i: usize = 0;
    proof {
        lists::lemma_filter_none(keep);
        assert(all.take(0) =~= Seq::<Seq<char>>::empty());
        assert(scan_docs(out@) =~= lists::picked(all.take(0), f));
    }
    while i < lines.len()
        invariant
            i <= lines@.len(),
            parsed <= i,
            all == text::texts(lines@),
            f == (|l: Seq<char>| scan_on(l)),
            keep == (|l: Seq<char>| is_scan_line(l)),
            scan_docs(out@) == lists::picked(all.take(i as int), f),
            parsed == all.take(i as int).filter(keep).len(),
        decreases lines@.len() - i,
    {
        proof {
            lists::lemma_picked_step(all, i as int, f);
            lists::lemma_filter_step(all, i as int, keep);
            assert(all[i as int] == lines@[i as int]@);
        }
        if holds_scan(lines[i].as_str()) {
            parsed = parsed + 1;
        }
        if let Some(scan) = parse_line(lines[i].as_str()) {
            let ghost before = out@;
            out.push(scan);
            assert(scan_docs(out@) =~= scan_docs(before).push(scan@));
        }
        i = i + 1;
    }
    assert(all.take(i as int) =~= all);
    (out, parsed as u64)
}

/// How often anything was scanned, where that fits.
fn sum_scans(scans: &Vec<Scan>) -> (r: Option<i64>)
    requires
        forall|k: int| 0 <= k < scans@.len() ==> (#[trigger] scan_docs(scans@)[k]).count > 0,
    ensures
        match r {
            Some(n) => n == total_of(scan_docs(scans@)),
            None => total_of(scan_docs(scans@)) > i64::MAX,
        },
{
    let ghost all = scan_docs(scans@);
    let mut total: i64 = 0;
    let mut i: usize = 0;
    while i < scans.len()
        invariant
            i <= scans@.len(),
            all == scan_docs(scans@),
            forall|k: int| 0 <= k < scans@.len() ==> (#[trigger] all[k]).count > 0,
            total == total_of(all.take(i as int)),
        decreases scans@.len() - i,
    {
        proof {
            assert(all.take(i + 1).drop_last() =~= all.take(i as int));
            assert(all.take(i + 1).last() == scans@[i as int]@);
            lemma_total_grows(all, i as int);
            lemma_total_grows(all, i + 1);
        }
        total = match total.checked_add(scans[i].count) {
            Some(n) => n,
            None => return None,
        };
        i = i + 1;
    }
    assert(all.take(i as int) =~= all);
    Some(total)
}

fn distinct_codes(scans: &Vec<Scan>) -> (r: Vec<String>)
    ensures
        text::texts(r@) == codes_of(scan_docs(scans@)),
{
    let ghost all = scan_docs(scans@).map_values(|s: ScanDoc| s.code);
    let mut out: Vec<String> = Vec::new();
    let mut i: usize = 0;
    assert(text::texts(out@) =~= lists::first_seen(all.take(0)));
    while i < scans.len()
        invariant
            i <= scans@.len(),
            all == scan_docs(scans@).map_values(|s: ScanDoc| s.code),
            text::texts(out@) == lists::first_seen(all.take(i as int)),
        decreases scans@.len() - i,
    {
        assert(all.take(i + 1).drop_last() =~= all.take(i as int));
        assert(all.take(i + 1).last() == scans@[i as int].code@);
        if !text::one_of(scans[i].code.as_str(), &out) {
            let ghost before = out@;
            let copy = scans[i].code.clone();
            out.push(copy);
            assert(text::texts(out@) =~= text::texts(before).push(copy@));
        }
        i = i + 1;
    }
    assert(all.take(i as int) =~= all);
    out
}

proof fn lemma_times_bounded(scans: Seq<ScanDoc>, code: Seq<char>)
    requires
        forall|k: int| 0 <= k < scans.len() ==> (#[trigger] scans[k]).count > 0,
    ensures
        0 <= times_scanned(scans, code) <= total_of(scans),
    decreases scans.len(),
{
    if scans.len() > 0 {
        let front = scans.drop_last();
        assert forall|k: int| 0 <= k < front.len() implies (#[trigger] front[k]).count > 0 by {
            assert(front[k] == scans[k]);
        }
        lemma_times_bounded(front, code);
        assert(scans[scans.len() - 1].count > 0);
    }
}

fn count_code(scans: &Vec<Scan>, code: &str) -> (r: i64)
    requires
        forall|k: int| 0 <= k < scans@.len() ==> (#[trigger] scan_docs(scans@)[k]).count > 0,
        total_of(scan_docs(scans@)) <= i64::MAX,
    ensures
        r == times_scanned(scan_docs(scans@), code@),
{
    let ghost all = scan_docs(scans@);
    let mut times: i64 = 0;
    let mut i: usize = 0;
    while i < scans.len()
        invariant
            i <= scans@.len(),
            all == scan_docs(scans@),
            forall|k: int| 0 <= k < scans@.len() ==> (#[trigger] all[k]).count > 0,
            total_of(all) <= i64::MAX,
            times == times_scanned(all.take(i as int), code@),
        decreases scans@.len() - i,
    {
        proof {
            assert(all.take(i + 1).drop_last() =~= all.take(i as int));
            assert(all.take(i + 1).last() == scans@[i as int]@);
            lemma_total_grows(all, i + 1);
            lemma_times_bounded(all.take(i + 1), code@);
        }
        if text::same(scans[i].code.as_str(), code) {
            times = times + scans[i].count;
        }
        i = i + 1;
    }
    assert(all.take(i as int) =~= all);
    times
}

fn read_match_codes(item: &Json) -> (r: Vec<String>)
    ensures
        text::texts(r@) == match_codes(item@),
{
    let mut out: Vec<String> = Vec::new();
    let ghost f = |d: Doc| match_item(d);
    assert(text::texts(out@) =~= Seq::<Seq<char>>::empty());
    if let Some(v) = item.items_at("barcodes") {
        let ghost all = json::docs(v@);
        let mut i: usize = 0;
        assert(text::texts(out@) =~= lists::picked(all.take(0), f));
        while i < v.len()
            invariant
                i <= v@.len(),
                all == json::docs(v@),
                f == (|d: Doc| match_item(d)),
                text::texts(out@) == lists::picked(all.take(i as int), f),
            decreases v@.len() - i,
        {
            proof {
                lists::lemma_picked_step(all, i as int, f);
                assert(all[i as int] == v@[i as int]@);
            }
            if let Some(s) = v[i].text() {
                let code = text::lower(text::trim(s).as_str());
                if !code.as_str().is_empty() {
                    let ghost before = out@;
                    out.push(code);
                    assert(text::texts(out@) =~= text::texts(before).push(code@));
                }
            }
            i = i + 1;
        }
        assert(all.take(i as int) =~= all);
    }
    out
}

/// Whether the codes stand ready for each item.
spec fn ready(index: Seq<Vec<String>>, items: Seq<Doc>) -> bool {
    &&& index.len() == items.len()
    &&& forall|i: int|
        0 <= i < items.len() ==> text::texts((#[trigger] index[i])@) == match_codes(items[i])
}

fn index_items(items: &Vec<Json>) -> (r: Vec<Vec<String>>)
    ensures
        ready(r@, json::docs(items@)),
{
    let mut out: Vec<Vec<String>> = Vec::new();
    let mut i: usize = 0;
    while i < items.len()
        invariant
            i <= items@.len(),
            out@.len() == i,
            forall|k: int|
                0 <= k < i ==> text::texts((#[trigger] out@[k])@) == match_codes(items@[k]@),
        decreases items@.len() - i,
    {
        out.push(read_match_codes(&items[i]));
        i = i + 1;
    }
    out
}

fn find_item(index: &Vec<Vec<String>>, code: &str, Ghost(items): Ghost<Seq<Doc>>) -> (r: Option<usize>)
    requires
        ready(index@, items),
    ensures
        match r {
            Some(i) => i < index@.len() && item_for(items, code@) == Some(i as int),
            None => item_for(items, code@) is None,
        },
{
    let key = text::lower(code);
    let mut i: usize = index.len();
    assert(items.take(i as int) =~= items);
    while i > 0
        invariant
            i <= index@.len(),
            ready(index@, items),
            key@ == text::lowered(code@),
            item_for(items, code@) == place_with(items.take(i as int), key@),
        decreases i,
    {
        i = i - 1;
        assert(items.take(i + 1).drop_last() =~= items.take(i as int));
        assert(items.take(i + 1).last() == items[i as int]);
        assert(text::texts(index@[i as int]@) == match_codes(items[i as int]));
        if text::one_of(key.as_str(), &index[i]) {
            return Some(i);
        }
    }
    None
}

/// The codes of all items, each once.
fn all_codes(index: &Vec<Vec<String>>, Ghost(items): Ghost<Seq<Doc>>) -> (r: Vec<String>)
    requires
        ready(index@, items),
    ensures
        text::texts(r@) == lists::first_seen(codes_on(items)),
{
    let mut out: Vec<String> = Vec::new();
    let mut i: usize = 0;
    assert(text::texts(out@) =~= lists::first_seen(codes_on(items.take(0))));
    while i < index.len()
        invariant
            i <= index@.len(),
            ready(index@, items),
            text::texts(out@) == lists::first_seen(codes_on(items.take(i as int))),
        decreases index@.len() - i,
    {
        let ghost before = codes_on(items.take(i as int));
        let ghost own = match_codes(items[i as int]);
        assert(text::texts(index@[i as int]@) == own);
        assert(before + own.take(0) =~= before);
        let mut j: usize = 0;
        while j < index[i].len()
            invariant
                i < index@.len(),
                j <= index@[i as int]@.len(),
                own == text::texts(index@[i as int]@),
                text::texts(out@) == lists::first_seen(before + own.take(j as int)),
            decreases index@[i as int]@.len() - j,
        {
            let ghost seen = out@;
            assert(own[j as int] == index@[i as int]@[j as int]@);
            assert((before + own.take(j + 1)).drop_last() =~= before + own.take(j as int));
            assert((before + own.take(j + 1)).last() == own[j as int]);
            if !text::one_of(index[i][j].as_str(), &out) {
                let copy = index[i][j].clone();
                out.push(copy);
                assert(text::texts(out@) =~= text::texts(seen).push(copy@));
            }
            j = j + 1;
        }
        assert(own.take(j as int) =~= own);
        assert(items.take(i + 1).drop_last() =~= items.take(i as int));
        assert(items.take(i + 1).last() == items[i as int]);
        i = i + 1;
    }
    assert(items.take(i as int) =~= items);
    out
}

/// Whether a code stands on more than one item.
fn stands_twice(index: &Vec<Vec<String>>, code: &str, Ghost(items): Ghost<Seq<Doc>>) -> (r: bool)
    requires
        ready(index@, items),
    ensures
        r == is_shared(items, code@),
{
    let mut first: Option<usize> = None;
    let mut i: usize = 0;
    while i < index.len()
        invariant
            i <= index@.len(),
            ready(index@, items),
            match first {
                Some(k) => k < i && match_codes(items[k as int]).contains(code@) && forall|m: int|
                    0 <= m < i && m != k ==> !(#[trigger] match_codes(items[m]).contains(code@)),
                None => forall|m: int|
                    0 <= m < i ==> !(#[trigger] match_codes(items[m]).contains(code@)),
            },
        decreases index@.len() - i,
    {
        assert(text::texts(index@[i as int]@) == match_codes(items[i as int]));
        if text::one_of(code, &index[i]) {
            if first.is_some() {
                return true;
            }
            first = Some(i);
        }
        i = i + 1;
    }
    false
}

fn find_shared(index: &Vec<Vec<String>>, Ghost(items): Ghost<Seq<Doc>>) -> (r: Vec<String>)
    requires
        ready(index@, items),
    ensures
        text::texts(r@) == shared_codes(items),
{
    let codes = all_codes(index, Ghost(items));
    let ghost all = text::texts(codes@);
    let ghost keep = |c: Seq<char>| is_shared(items, c);
    let mut out: Vec<String> = Vec::new();
    let mut i: usize = 0;
    proof {
        lists::lemma_filter_none(keep);
        assert(all.take(0) =~= Seq::<Seq<char>>::empty());
        assert(text::texts(out@) =~= Seq::<Seq<char>>::empty());
    }
    while i < codes.len()
        invariant
            i <= codes@.len(),
            ready(index@, items),
            all == text::texts(codes@),
            keep == (|c: Seq<char>| is_shared(items, c)),
            text::texts(out@) == all.take(i as int).filter(keep),
        decreases codes@.len() - i,
    {
        let ghost before = out@;
        proof {
            lists::lemma_filter_step(all, i as int, keep);
            assert(all[i as int] == codes@[i as int]@);
        }
        if stands_twice(index, codes[i].as_str(), Ghost(items)) {
            let copy = codes[i].clone();
            out.push(copy);
            assert(text::texts(out@) =~= text::texts(before).push(copy@));
        }
        i = i + 1;
    }
    assert(all.take(i as int) =~= all);
    out
}

proof fn lemma_item_bounded(scans: Seq<ScanDoc>, items: Seq<Doc>, i: int)
    requires
        forall|k: int| 0 <= k < scans.len() ==> (#[trigger] scans[k]).count > 0,
    ensures
        0 <= item_count(scans, items, i) <= total_of(scans),
    decreases scans.len(),
{
    if scans.len() > 0 {
        let front = scans.drop_last();
        assert forall|k: int| 0 <= k < front.len() implies (#[trigger] front[k]).count > 0 by {
            assert(front[k] == scans[k]);
        }
        lemma_item_bounded(front, items, i);
        assert(scans[scans.len() - 1].count > 0);
    }
}

/// How often each item was scanned.
fn count_items(scans: &Vec<Scan>, index: &Vec<Vec<String>>, Ghost(items): Ghost<Seq<Doc>>) -> (r: Vec<
    i64,
>)
    requires
        ready(index@, items),
        forall|k: int| 0 <= k < scans@.len() ==> (#[trigger] scan_docs(scans@)[k]).count > 0,
        total_of(scan_docs(scans@)) <= i64::MAX,
    ensures
        r@.len() == items.len(),
        forall|i: int|
            0 <= i < items.len() ==> #[trigger] r@[i] == item_count(scan_docs(scans@), items, i),
{
    let ghost all = scan_docs(scans@);
    let mut out: Vec<i64> = Vec::new();
    let mut n: usize = 0;
    assert(all.take(0) =~= Seq::<ScanDoc>::empty());
    while n < index.len()
        invariant
            n <= index@.len(),
            out@.len() == n,
            all.take(0) == Seq::<ScanDoc>::empty(),
            forall|i: int| 0 <= i < n ==> #[trigger] out@[i] == item_count(all.take(0), items, i),
        decreases index@.len() - n,
    {
        out.push(0);
        n = n + 1;
    }
    let mut k: usize = 0;
    while k < scans.len()
        invariant
            k <= scans@.len(),
            ready(index@, items),
            all == scan_docs(scans@),
            forall|k: int| 0 <= k < scans@.len() ==> (#[trigger] all[k]).count > 0,
            total_of(all) <= i64::MAX,
            out@.len() == items.len(),
            forall|i: int|
                0 <= i < items.len() ==> #[trigger] out@[i] == item_count(
                    all.take(k as int),
                    items,
                    i,
                ),
        decreases scans@.len() - k,
    {
        let ghost before = out@;
        let ghost now = all.take(k + 1);
        proof {
            assert(now.drop_last() =~= all.take(k as int));
            assert(now.last() == scans@[k as int]@);
            lemma_total_grows(all, k + 1);
        }
        if let Some(at) = find_item(index, scans[k].code.as_str(), Ghost(items)) {
            proof {
                lemma_item_bounded(now, items, at as int);
                assert(before[at as int] == item_count(all.take(k as int), items, at as int));
            }
            let sum = out[at] + scans[k].count;
            out.set(at, sum);
        }
        assert forall|i: int| 0 <= i < items.len() implies #[trigger] out@[i] == item_count(
            now,
            items,
            i,
        ) by {
            assert(before[i] == item_count(all.take(k as int), items, i));
        }
        k = k + 1;
    }
    assert(all.take(k as int) =~= all);
    out
}

fn read_count_before(item: &Json) -> (r: i64)
    ensures
        r == count_before(item@),
{
    match item.get("current_count") {
        Some(v) => match v.integer() {
            Some(n) => n,
            None => 0,
        },
        None => 0,
    }
}

fn make_row(item: &Json, now: i64) -> (r: Option<Json>)
    requires
        now >= 0,
    ensures
        match r {
            Some(d) => d@ == count_row(item@, now as int) && now - count_before(item@) <= i64::MAX,
            None => now - count_before(item@) > i64::MAX,
        },
{
    let was = read_count_before(item);
    let diff = match now.checked_sub(was) {
        Some(d) => d,
        None => return None,
    };
    Some(
        Json::object().with_text("id", item.text_in("id").as_str()).with_text(
            "name",
            item.text_in("name").as_str(),
        ).with_text("id_number", item.text_in("id_number").as_str()).with(
            "was",
            Json::of_i64(was),
        ).with("now", Json::of_i64(now)).with("diff", Json::of_i64(diff)),
    )
}

/// Whether these are the counts of the items.
spec fn counts_are(counts: Seq<i64>, scans: Seq<ScanDoc>, items: Seq<Doc>) -> bool {
    &&& counts.len() == items.len()
    &&& forall|i: int|
        0 <= i < items.len() ==> #[trigger] counts[i] == item_count(scans, items, i)
            && counts[i] >= 0
}

fn add_target(targets: &mut Vec<(String, i64)>, item: &Json, now: i64)
    ensures
        target_docs(final(targets)@) == target_added(
            target_docs(old(targets)@),
            item@,
            now as int,
        ),
{
    let ghost before = targets@;
    if let Some(id) = item.text_at("id") {
        let target = (id.to_owned(), now);
        targets.push(target);
        assert(target_docs(targets@) =~= target_docs(before).push((id@, now as int)));
    }
}

/// The lines and the new counts for what was scanned.
fn report_found(counts: &Vec<i64>, items: &Vec<Json>, Ghost(scans): Ghost<Seq<ScanDoc>>) -> (r: Option<
    (Vec<Json>, Vec<(String, i64)>),
>)
    requires
        counts_are(counts@, scans, json::docs(items@)),
    ensures
        match r {
            Some(p) => {
                let all = json::docs(items@);
                &&& json::docs(p.0@) == found_rows(scans, all, all.len())
                &&& target_docs(p.1@) == found_targets(scans, all, all.len())
                &&& forall|i: int|
                    0 <= i < all.len() && #[trigger] item_count(scans, all, i) > 0 ==> item_count(
                        scans,
                        all,
                        i,
                    ) - count_before(all[i]) <= i64::MAX
            },
            None => exists|i: int|
                0 <= i < items@.len() && #[trigger] item_count(scans, json::docs(items@), i) > 0
                    && item_count(scans, json::docs(items@), i) - count_before(items@[i]@)
                    > i64::MAX,
        },
{
    let ghost all = json::docs(items@);
    let mut rows: Vec<Json> = Vec::new();
    let mut targets: Vec<(String, i64)> = Vec::new();
    let mut i: usize = 0;
    assert(json::docs(rows@) =~= Seq::<Doc>::empty());
    assert(target_docs(targets@) =~= Seq::<(Seq<char>, int)>::empty());
    while i < items.len()
        invariant
            i <= items@.len(),
            all == json::docs(items@),
            counts_are(counts@, scans, all),
            json::docs(rows@) == found_rows(scans, all, i as nat),
            target_docs(targets@) == found_targets(scans, all, i as nat),
            forall|k: int|
                0 <= k < i && #[trigger] item_count(scans, all, k) > 0 ==> item_count(
                    scans,
                    all,
                    k,
                ) - count_before(all[k]) <= i64::MAX,
        decreases items@.len() - i,
    {
        assert(all[i as int] == items@[i as int]@);
        assert(counts@[i as int] == item_count(scans, all, i as int));
        if counts[i] > 0 {
            let ghost before = rows@;
            let row = match make_row(&items[i], counts[i]) {
                Some(row) => row,
                None => return None,
            };
            rows.push(row);
            assert(json::docs(rows@) =~= json::docs(before).push(row@));
            add_target(&mut targets, &items[i], counts[i]);
        }
        i = i + 1;
    }
    Some((rows, targets))
}

/// The lines and the new counts for what went missing.
fn report_missing(counts: &Vec<i64>, items: &Vec<Json>, Ghost(scans): Ghost<Seq<ScanDoc>>) -> (r: Option<
    (Vec<Json>, Vec<(String, i64)>),
>)
    requires
        counts_are(counts@, scans, json::docs(items@)),
    ensures
        match r {
            Some(p) => {
                let all = json::docs(items@);
                &&& json::docs(p.0@) == missing_rows(scans, all, all.len())
                &&& target_docs(p.1@) == missing_targets(scans, all, all.len())
                &&& forall|i: int|
                    0 <= i < all.len() && #[trigger] item_count(scans, all, i) == 0
                        ==> count_before(all[i]) != i64::MIN
            },
            None => exists|i: int|
                0 <= i < items@.len() && #[trigger] item_count(scans, json::docs(items@), i) == 0
                    && count_before(items@[i]@) == i64::MIN,
        },
{
    let ghost all = json::docs(items@);
    let mut rows: Vec<Json> = Vec::new();
    let mut targets: Vec<(String, i64)> = Vec::new();
    let mut i: usize = 0;
    assert(json::docs(rows@) =~= Seq::<Doc>::empty());
    assert(target_docs(targets@) =~= Seq::<(Seq<char>, int)>::empty());
    while i < items.len()
        invariant
            i <= items@.len(),
            all == json::docs(items@),
            counts_are(counts@, scans, all),
            json::docs(rows@) == missing_rows(scans, all, i as nat),
            target_docs(targets@) == missing_targets(scans, all, i as nat),
            forall|k: int|
                0 <= k < i && #[trigger] item_count(scans, all, k) == 0 ==> count_before(all[k])
                    != i64::MIN,
        decreases items@.len() - i,
    {
        assert(all[i as int] == items@[i as int]@);
        assert(counts@[i as int] == item_count(scans, all, i as int));
        if counts[i] == 0 && read_count_before(&items[i]) != 0 {
            let ghost before = rows@;
            let row = match make_row(&items[i], 0) {
                Some(row) => row,
                None => return None,
            };
            rows.push(row);
            assert(json::docs(rows@) =~= json::docs(before).push(row@));
            add_target(&mut targets, &items[i], 0);
        }
        i = i + 1;
    }
    Some((rows, targets))
}

pub struct ByLowerName {}

impl Ranking<Json> for ByLowerName {
    open spec fn le(&self) -> spec_fn(Json, Json) -> bool {
        |a: Json, b: Json| by_lower_name()(a@, b@)
    }

    fn may_precede(&self, a: &Json, b: &Json) -> (r: bool) {
        let x = text::lower(a.text_in("name").as_str());
        let y = text::lower(b.text_in("name").as_str());
        text::ordered(x.as_str(), y.as_str())
    }
}

fn sort_by_lower_name(v: Vec<Json>) -> (r: Vec<Json>)
    ensures
        json::docs(r@) == order::ranked(json::docs(v@), by_lower_name()),
{
    let rank = ByLowerName {  };
    proof {
        order::lemma_ranked_map(v@, rank.le(), |j: Json| j@, by_lower_name());
    }
    order::sort(v, &rank)
}

pub struct ByFrequency {}

impl Ranking<Scan> for ByFrequency {
    open spec fn le(&self) -> spec_fn(Scan, Scan) -> bool {
        |a: Scan, b: Scan| by_frequency()(a@, b@)
    }

    fn may_precede(&self, a: &Scan, b: &Scan) -> (r: bool) {
        a.count > b.count || (a.count == b.count && text::ordered(a.code.as_str(), b.code.as_str()))
    }
}

/// The codes that belong to nothing, the most frequent first.
fn report_strays(
    scans: &Vec<Scan>,
    codes: &Vec<String>,
    index: &Vec<Vec<String>>,
    Ghost(items): Ghost<Seq<Doc>>,
) -> (r: Vec<Json>)
    requires
        ready(index@, items),
        forall|k: int| 0 <= k < scans@.len() ==> (#[trigger] scan_docs(scans@)[k]).count > 0,
        total_of(scan_docs(scans@)) <= i64::MAX,
        text::texts(codes@) == codes_of(scan_docs(scans@)),
    ensures
        json::docs(r@) == order::ranked(strays(scan_docs(scans@), items), by_frequency()).map_values(
            |s: ScanDoc| stray_row(s),
        ),
{
    let ghost all = text::texts(codes@);
    let ghost said = scan_docs(scans@);
    let ghost keep = |c: Seq<char>| item_for(items, c) is None;
    let ghost tally = |c: Seq<char>|
        ScanDoc { code: c, count: times_scanned(said, c) as i64 };
    let mut out: Vec<Scan> = Vec::new();
    let mut i: usize = 0;
    proof {
        lists::lemma_filter_none(keep);
        assert(all.take(0) =~= Seq::<Seq<char>>::empty());
        assert(scan_docs(out@) =~= all.take(0).filter(keep).map_values(tally));
    }
    while i < codes.len()
        invariant
            i <= codes@.len(),
            ready(index@, items),
            all == text::texts(codes@),
            said == scan_docs(scans@),
            forall|k: int| 0 <= k < scans@.len() ==> (#[trigger] scan_docs(scans@)[k]).count > 0,
            total_of(scan_docs(scans@)) <= i64::MAX,
            keep == (|c: Seq<char>| item_for(items, c) is None),
            tally == (|c: Seq<char>|
                ScanDoc { code: c, count: times_scanned(said, c) as i64 }),
            scan_docs(out@) == all.take(i as int).filter(keep).map_values(tally),
        decreases codes@.len() - i,
    {
        proof {
            lists::lemma_filter_step(all, i as int, keep);
            assert(all[i as int] == codes@[i as int]@);
        }
        if find_item(index, codes[i].as_str(), Ghost(items)).is_none() {
            let ghost before = out@;
            let ghost kept = all.take(i as int).filter(keep);
            let scan = Scan {
                code: codes[i].clone(),
                count: count_code(scans, codes[i].as_str()),
            };
            out.push(scan);
            assert(scan_docs(out@) =~= scan_docs(before).push(scan@));
            assert(kept.push(codes@[i as int]@).map_values(tally) =~= kept.map_values(tally).push(
                scan@,
            ));
        }
        i = i + 1;
    }
    assert(all.take(i as int) =~= all);
    let rank = ByFrequency {  };
    proof {
        order::lemma_ranked_map(out@, rank.le(), |s: Scan| s@, by_frequency());
    }
    let sorted = order::sort(out, &rank);
    let mut rows: Vec<Json> = Vec::new();
    let mut n: usize = 0;
    while n < sorted.len()
        invariant
            n <= sorted@.len(),
            rows@.len() == n,
            forall|k: int| 0 <= k < n ==> (#[trigger] rows@[k])@ == stray_row(sorted@[k]@),
        decreases sorted@.len() - n,
    {
        rows.push(
            Json::object().with_text("code", sorted[n].code.as_str()).with(
                "count",
                Json::of_i64(sorted[n].count),
            ),
        );
        n = n + 1;
    }
    assert(json::docs(rows@) =~= scan_docs(sorted@).map_values(|s: ScanDoc| stray_row(s)));
    rows
}

fn read_strict(mode: Option<&str>) -> (r: bool)
    ensures
        r == is_strict(json::opt_str(mode)),
{
    match mode {
        Some(m) => !text::same(text::lower(text::trim(m).as_str()).as_str(), "partial"),
        None => true,
    }
}

fn append_targets(a: Vec<(String, i64)>, b: Vec<(String, i64)>) -> (r: Vec<(String, i64)>)
    ensures
        target_docs(r@) == target_docs(a@) + target_docs(b@),
{
    let mut out = a;
    let mut rest = b;
    out.append(&mut rest);
    assert(target_docs(out@) =~= target_docs(a@) + target_docs(b@));
    out
}

/// What a stocktake finds, given the file and the items of the store. There
/// is nothing where a number of the report does not fit.
pub fn stocktake(file: &str, mode: Option<&str>, items: &Vec<Json>) -> (r: Option<Plan>)
    ensures
        match r {
            Some(plan) => counts_fit(
                scans_in(file@),
                json::docs(items@),
                is_strict(json::opt_str(mode)),
            ) && plan@ == plan_of(file@, json::docs(items@), is_strict(json::opt_str(mode))),
            None => !counts_fit(
                scans_in(file@),
                json::docs(items@),
                is_strict(json::opt_str(mode)),
            ),
        },
{
    let ghost docs = json::docs(items@);
    let (scans, lines_parsed) = parse_scans(file);
    let ghost said = scan_docs(scans@);
    proof {
        lemma_scans_count(file@);
    }
    let total_scans = match sum_scans(&scans) {
        Some(n) => n,
        None => return None,
    };
    let index = index_items(items);
    let counts = count_items(&scans, &index, Ghost(docs));
    proof {
        assert forall|i: int| 0 <= i < docs.len() implies #[trigger] counts@[i] == item_count(
            said,
            docs,
            i,
        ) && counts@[i] >= 0 by {
            lemma_item_bounded(said, docs, i);
        }
    }
    let strict = read_strict(mode);
    let (found, found_counts) = match report_found(&counts, items, Ghost(said)) {
        Some(p) => p,
        None => {
            assert(!counts_fit(said, docs, strict)) by {
                let i = choose|i: int|
                    0 <= i < docs.len() && #[trigger] item_count(said, docs, i) > 0 && item_count(
                        said,
                        docs,
                        i,
                    ) - count_before(items@[i]@) > i64::MAX;
                assert(docs[i] == items@[i]@);
            }
            return None;
        },
    };
    let mut not_scanned: Vec<Json> = Vec::new();
    let mut targets = found_counts;
    assert(json::docs(not_scanned@) =~= Seq::<Doc>::empty());
    if strict {
        let (missing, missing_counts) = match report_missing(&counts, items, Ghost(said)) {
            Some(p) => p,
            None => {
                assert(!counts_fit(said, docs, strict)) by {
                    let i = choose|i: int|
                        0 <= i < docs.len() && #[trigger] item_count(said, docs, i) == 0
                            && count_before(items@[i]@) == i64::MIN;
                    assert(docs[i] == items@[i]@);
                }
                return None;
            },
        };
        not_scanned = sort_by_lower_name(missing);
        targets = append_targets(targets, missing_counts);
    }
    let codes = distinct_codes(&scans);
    let unmatched = report_strays(&scans, &codes, &index, Ghost(docs));
    let items_matched = found.len() as u64;
    Some(
        Plan {
            strict,
            lines_parsed,
            total_scans,
            unique_codes: codes.len() as u64,
            items_matched,
            updates: sort_by_lower_name(found),
            unmatched,
            not_scanned,
            shared: find_shared(&index, Ghost(docs)),
            targets,
        },
    )
}

/// What became of each new count: nothing where it was written, and else why
/// not.
pub open spec fn failures(v: Seq<Option<String>>) -> Seq<Option<Seq<char>>> {
    v.map_values(|o: Option<String>| text::opt_text(o))
}

/// What the report says of the counts that could not be written.
pub open spec fn write_errors(
    targets: Seq<(Seq<char>, int)>,
    outcomes: Seq<Option<Seq<char>>>,
    n: nat,
) -> Seq<Doc>
    decreases n,
{
    if n == 0 {
        Seq::<Doc>::empty()
    } else {
        let before = write_errors(targets, outcomes, (n - 1) as nat);
        match outcomes[n - 1] {
            Some(e) => before.push(Doc::Str(targets[n - 1].0 + ": "@ + e)),
            None => before,
        }
    }
}

/// Codes as a list of texts.
pub open spec fn code_list(codes: Seq<Seq<char>>) -> Seq<Doc> {
    codes.map_values(|c: Seq<char>| Doc::Str(c))
}

/// The report of a stocktake. It flags the codes that stand on more than one
/// item. Where it is applied, it says what became of each new count.
pub open spec fn report_of(plan: PlanDoc, applied: bool, outcomes: Seq<Option<Seq<char>>>) -> Doc {
    let errors = if applied {
        write_errors(plan.targets, outcomes, plan.targets.len())
    } else {
        Seq::<Doc>::empty()
    };
    let written = if applied {
        plan.targets.len() - errors.len()
    } else {
        0
    };
    failure::done().with("applied"@, Doc::Bool(applied)).with(
        "mode"@,
        Doc::Str(
            if plan.strict {
                "strict"@
            } else {
                "partial"@
            },
        ),
    ).with("lines_parsed"@, Doc::num(plan.lines_parsed)).with(
        "total_scans"@,
        Doc::num(plan.total_scans),
    ).with("unique_codes"@, Doc::num(plan.unique_codes)).with(
        "items_matched"@,
        Doc::num(plan.items_matched),
    ).with("updates"@, Doc::Array(plan.updates)).with("unmatched"@, Doc::Array(plan.unmatched)).with(
        "not_scanned"@,
        Doc::Array(plan.not_scanned),
    ).with("shared_codes"@, Doc::Array(code_list(plan.shared))).with("applied_writes"@, Doc::num(written)).with("write_errors"@, Doc::Array(errors))
}

fn list_write_errors(targets: &Vec<(String, i64)>, outcomes: &Vec<Option<String>>) -> (r: Vec<Json>)
    requires
        targets@.len() == outcomes@.len(),
    ensures
        json::docs(r@) == write_errors(target_docs(targets@), failures(outcomes@), targets@.len()),
        r@.len() <= targets@.len(),
{
    let ghost ts = target_docs(targets@);
    let ghost os = failures(outcomes@);
    let mut out: Vec<Json> = Vec::new();
    let mut i: usize = 0;
    assert(json::docs(out@) =~= Seq::<Doc>::empty());
    while i < targets.len()
        invariant
            i <= targets@.len(),
            out@.len() <= i,
            targets@.len() == outcomes@.len(),
            ts == target_docs(targets@),
            os == failures(outcomes@),
            json::docs(out@) == write_errors(ts, os, i as nat),
        decreases targets@.len() - i,
    {
        assert(ts[i as int].0 == targets@[i as int].0@);
        assert(os[i as int] == text::opt_text(outcomes@[i as int]));
        if let Some(e) = &outcomes[i] {
            let ghost before = out@;
            let line = text::cat3(targets[i].0.as_str(), ": ", e.as_str());
            let item = Json::of_text(line.as_str());
            out.push(item);
            assert(json::docs(out@) =~= json::docs(before).push(item@));
        }
        i = i + 1;
    }
    out
}

fn list_codes(codes: &Vec<String>) -> (r: Vec<Json>)
    ensures
        json::docs(r@) == code_list(text::texts(codes@)),
{
    let ghost all = text::texts(codes@);
    let mut out: Vec<Json> = Vec::new();
    let mut i: usize = 0;
    while i < codes.len()
        invariant
            i <= codes@.len(),
            all == text::texts(codes@),
            json::docs(out@) == code_list(all.take(i as int)),
        decreases codes@.len() - i,
    {
        let ghost before = out@;
        assert(all[i as int] == codes@[i as int]@);
        let item = Json::of_text(codes[i].as_str());
        out.push(item);
        assert(json::docs(out@) =~= json::docs(before).push(item@));
        assert(json::docs(out@) =~= code_list(all.take(i + 1)));
        i = i + 1;
    }
    assert(all.take(i as int) =~= all);
    out
}

/// The report of a stocktake.
pub fn report_stocktake(plan: Plan, applied: bool, outcomes: &Vec<Option<String>>) -> (r: Json)
    requires
        applied ==> outcomes@.len() == plan.targets@.len(),
    ensures
        r@ == report_of(plan@, applied, failures(outcomes@)),
{
    let mut errors: Vec<Json> = Vec::new();
    let mut written: usize = 0;
    assert(json::docs(errors@) =~= Seq::<Doc>::empty());
    if applied {
        errors = list_write_errors(&plan.targets, outcomes);
        written = plan.targets.len() - errors.len();
    }
    let mode = if plan.strict {
        "strict"
    } else {
        "partial"
    };
    let shared = list_codes(&plan.shared);
    failure::ok_answer().with("applied", Json::Bool(applied)).with_text("mode", mode).with(
        "lines_parsed",
        Json::of_u64(plan.lines_parsed),
    ).with("total_scans", Json::of_i64(plan.total_scans)).with(
        "unique_codes",
        Json::of_u64(plan.unique_codes),
    ).with("items_matched", Json::of_u64(plan.items_matched)).with(
        "updates",
        Json::list(plan.updates),
    ).with("unmatched", Json::list(plan.unmatched)).with(
        "not_scanned",
        Json::list(plan.not_scanned),
    ).with("shared_codes", Json::list(shared)).with("applied_writes", Json::of_u64(written as u64)).with(
        "write_errors",
        Json::list(errors),
    )
}

/// The record of an item with a new count.
pub open spec fn count_written(record: Doc, count: i64, now: u64) -> Doc {
    record.with("current_count"@, Doc::num(count as int)).with("updated_ms"@, Doc::num(now as int))
}

pub fn write_store_item_count(record: Json, count: i64, now: u64) -> (r: Json)
    ensures
        r@ == count_written(record@, count, now),
{
    record.with("current_count", Json::of_i64(count)).with("updated_ms", Json::of_u64(now))
}

/// A count that was written is the count on record.
pub proof fn law_count_read_back(record: Doc, count: i64, now: u64)
    requires
        record.is_object(),
    ensures
        store::number_in(count_written(record, count, now), "current_count"@) == count,
        count_before(count_written(record, count, now)) == count,
{
    reveal_strlit("current_count");
    reveal_strlit("updated_ms");
    assert("current_count"@.len() == 13 && "updated_ms"@.len() == 10);
}

/// How often the first `n` items were scanned.
pub open spec fn items_total(scans: Seq<ScanDoc>, items: Seq<Doc>, n: nat) -> int
    decreases n,
{
    if n == 0 {
        0
    } else {
        items_total(scans, items, (n - 1) as nat) + item_count(scans, items, n - 1)
    }
}

/// How often some codes were scanned.
pub open spec fn codes_total(scans: Seq<ScanDoc>, codes: Seq<Seq<char>>) -> int
    decreases codes.len(),
{
    if codes.len() == 0 {
        0
    } else {
        codes_total(scans, codes.drop_last()) + times_scanned(scans, codes.last())
    }
}

proof fn lemma_place_range(items: Seq<Doc>, key: Seq<char>)
    ensures
        place_with(items, key) matches Some(i) ==> 0 <= i < items.len(),
    decreases items.len(),
{
    if items.len() > 0 {
        lemma_place_range(items.drop_last(), key);
    }
}

/// One more scan raises the counts of the items by its own where it belongs
/// to one of them.
proof fn lemma_items_total_step(scans: Seq<ScanDoc>, items: Seq<Doc>, n: nat)
    requires
        scans.len() > 0,
    ensures
        items_total(scans, items, n) == items_total(scans.drop_last(), items, n) + match item_for(
            items,
            scans.last().code,
        ) {
            Some(i) => if 0 <= i < n {
                scans.last().count as int
            } else {
                0
            },
            None => 0,
        },
    decreases n,
{
    if n > 0 {
        lemma_items_total_step(scans, items, (n - 1) as nat);
    }
}

/// One more scan of a code that is not among some raises nothing; one of a
/// code that stands among them once raises the sum by its own count.
proof fn lemma_codes_total_step(scans: Seq<ScanDoc>, codes: Seq<Seq<char>>)
    requires
        scans.len() > 0,
        codes.no_duplicates(),
    ensures
        codes_total(scans, codes) == codes_total(scans.drop_last(), codes) + if codes.contains(
            scans.last().code,
        ) {
            scans.last().count as int
        } else {
            0
        },
    decreases codes.len(),
{
    if codes.len() > 0 {
        let front = codes.drop_last();
        let code = scans.last().code;
        assert(front.no_duplicates());
        lemma_codes_total_step(scans, front);
        if front.contains(code) {
            let k = choose|k: int| 0 <= k < front.len() && front[k] == code;
            assert(codes[k] == code);
            assert(codes[codes.len() - 1] != code);
        } else if codes.contains(code) {
            let k = choose|k: int| 0 <= k < codes.len() && codes[k] == code;
            assert(k == codes.len() - 1) by {
                if k < front.len() {
                    assert(front[k] == code);
                }
            }
        } else {
            assert(codes[codes.len() - 1] != code) by {
                if codes[codes.len() - 1] == code {
                    assert(codes.contains(code));
                }
            }
        }
    }
}

proof fn lemma_times_of_unseen(scans: Seq<ScanDoc>, code: Seq<char>)
    requires
        forall|k: int| 0 <= k < scans.len() ==> (#[trigger] scans[k]).code != code,
    ensures
        times_scanned(scans, code) == 0,
    decreases scans.len(),
{
    if scans.len() > 0 {
        let front = scans.drop_last();
        assert forall|k: int| 0 <= k < front.len() implies (#[trigger] front[k]).code != code by {
            assert(front[k] == scans[k]);
        }
        lemma_times_of_unseen(front, code);
        assert(scans[scans.len() - 1].code != code);
    }
}

proof fn lemma_seen_all(s: Seq<Seq<char>>, x: Seq<char>)
    ensures
        s.contains(x) == lists::first_seen(s).contains(x),
    decreases s.len(),
{
    lists::lemma_first_seen(s);
    if lists::first_seen(s).contains(x) {
        let k = choose|k: int|
            0 <= k < lists::first_seen(s).len() && lists::first_seen(s)[k] == x;
        assert(s.contains(lists::first_seen(s)[k]));
    }
    if s.contains(x) {
        let front = s.drop_last();
        lemma_seen_all(front, x);
        let before = lists::first_seen(front);
        let k = choose|k: int| 0 <= k < s.len() && s[k] == x;
        if k < front.len() {
            assert(front[k] == x);
            assert(front.contains(x));
            let j = choose|j: int| 0 <= j < before.len() && before[j] == x;
            assert(lists::first_seen(s)[j] == x);
        } else if !before.contains(s.last()) {
            assert(lists::first_seen(s)[before.len() as int] == x);
        }
    }
}

proof fn lemma_strays_step(scans: Seq<ScanDoc>, items: Seq<Doc>)
    requires
        scans.len() > 0,
    ensures
        codes_total(scans, stray_codes(scans, items)) == codes_total(
            scans.drop_last(),
            stray_codes(scans.drop_last(), items),
        ) + if item_for(items, scans.last().code) is None {
            scans.last().count as int
        } else {
            0
        },
{
    let front = scans.drop_last();
    let code = scans.last().code;
    let pick = |s: ScanDoc| s.code;
    let keep = |c: Seq<char>| item_for(items, c) is None;
    let all = scans.map_values(pick);
    assert(all.drop_last() =~= front.map_values(pick));
    assert(all.last() == code);
    let before = codes_of(front);
    lists::lemma_first_seen(front.map_values(pick));
    lists::lemma_first_seen(all);
    let old_strays = stray_codes(front, items);
    assert(old_strays.no_duplicates()) by {
        lemma_filter_distinct(before, keep);
    }
    lemma_codes_total_step(scans, old_strays);
    lists::lemma_filter_holds(before, keep, code);
    if before.contains(code) {
        assert(codes_of(scans) == before);
    } else {
        assert(codes_of(scans) == before.push(code));
        lists::lemma_filter_push(before, code, keep);
        if keep(code) {
            assert(stray_codes(scans, items) == old_strays.push(code));
            assert(old_strays.push(code).drop_last() =~= old_strays);
            assert forall|k: int| 0 <= k < front.len() implies (#[trigger] front[k]).code != code by {
                if front[k].code == code {
                    assert(front.map_values(pick)[k] == code);
                    assert(front.map_values(pick).contains(code));
                    lemma_seen_all(front.map_values(pick), code);
                }
            }
            lemma_times_of_unseen(front, code);
            assert(times_scanned(scans, code) == scans.last().count);
        }
    }
}

proof fn lemma_filter_distinct(s: Seq<Seq<char>>, keep: spec_fn(Seq<char>) -> bool)
    requires
        s.no_duplicates(),
    ensures
        s.filter(keep).no_duplicates(),
    decreases s.len(),
{
    reveal(Seq::filter);
    if s.len() > 0 {
        let front = s.drop_last();
        assert(front.no_duplicates());
        lemma_filter_distinct(front, keep);
        let f = front.filter(keep);
        assert forall|i: int| 0 <= i < f.len() implies #[trigger] f[i] != s.last() by {
            lists::lemma_filter_holds(front, keep, f[i]);
            assert(f.contains(f[i]));
            let k = choose|k: int| 0 <= k < front.len() && front[k] == f[i];
            assert(s[k] != s[s.len() - 1]);
        }
    }
}

/// Nothing that was scanned is lost: the counts of the items and those of the
/// codes that belong to nothing add up to all scans.
pub proof fn law_scans_conserved(scans: Seq<ScanDoc>, items: Seq<Doc>)
    ensures
        items_total(scans, items, items.len()) + codes_total(scans, stray_codes(scans, items))
            == total_of(scans),
    decreases scans.len(),
{
    if scans.len() == 0 {
        lemma_nothing_scanned(scans, items, items.len());
        let keep = |c: Seq<char>| item_for(items, c) is None;
        let pick = |s: ScanDoc| s.code;
        assert(scans.map_values(pick) =~= Seq::<Seq<char>>::empty());
        lists::lemma_filter_none(keep);
    } else {
        law_scans_conserved(scans.drop_last(), items);
        lemma_items_total_step(scans, items, items.len());
        lemma_strays_step(scans, items);
        lemma_place_range(items, text::lowered(scans.last().code));
    }
}

proof fn lemma_nothing_scanned(scans: Seq<ScanDoc>, items: Seq<Doc>, n: nat)
    requires
        scans.len() == 0,
    ensures
        items_total(scans, items, n) == 0,
    decreases n,
{
    if n > 0 {
        lemma_nothing_scanned(scans, items, (n - 1) as nat);
    }
}

proof fn lemma_found_target(scans: Seq<ScanDoc>, items: Seq<Doc>, n: nat, i: int, id: Seq<char>)
    requires
        0 <= i < n <= items.len(),
        items[i].text_at("id"@) == Some(id),
        item_count(scans, items, i) > 0,
    ensures
        found_targets(scans, items, n).contains((id, item_count(scans, items, i))),
    decreases n,
{
    let all = found_targets(scans, items, n);
    if i == n - 1 {
        assert(all[all.len() - 1] == (id, item_count(scans, items, i)));
    } else {
        lemma_found_target(scans, items, (n - 1) as nat, i, id);
        let before = found_targets(scans, items, (n - 1) as nat);
        let k = choose|k: int|
            0 <= k < before.len() && before[k] == (id, item_count(scans, items, i));
        assert(all[k] == before[k]);
    }
}

proof fn lemma_missing_target(scans: Seq<ScanDoc>, items: Seq<Doc>, n: nat, i: int, id: Seq<char>)
    requires
        0 <= i < n <= items.len(),
        items[i].text_at("id"@) == Some(id),
        went_missing(scans, items, i),
    ensures
        missing_targets(scans, items, n).contains((id, 0int)),
    decreases n,
{
    let all = missing_targets(scans, items, n);
    if i == n - 1 {
        assert(all[all.len() - 1] == (id, 0int));
    } else {
        lemma_missing_target(scans, items, (n - 1) as nat, i, id);
        let before = missing_targets(scans, items, (n - 1) as nat);
        let k = choose|k: int| 0 <= k < before.len() && before[k] == (id, 0int);
        assert(all[k] == before[k]);
    }
}

/// Whether a new count is that of an item: what was scanned of it.
pub open spec fn is_item_target(
    scans: Seq<ScanDoc>,
    items: Seq<Doc>,
    t: (Seq<char>, int),
    i: int,
) -> bool {
    0 <= i < items.len() && items[i].text_at("id"@) == Some(t.0) && item_count(scans, items, i)
        == t.1
}

proof fn lemma_found_targets_from(scans: Seq<ScanDoc>, items: Seq<Doc>, n: nat, k: int)
    requires
        n <= items.len(),
        0 <= k < found_targets(scans, items, n).len(),
    ensures
        found_targets(scans, items, n)[k].1 > 0,
        exists|i: int| is_item_target(scans, items, found_targets(scans, items, n)[k], i),
    decreases n,
{
    if n > 0 {
        let before = found_targets(scans, items, (n - 1) as nat);
        if k < before.len() {
            lemma_found_targets_from(scans, items, (n - 1) as nat, k);
            assert(found_targets(scans, items, n)[k] == before[k]);
        } else {
            assert(is_item_target(scans, items, found_targets(scans, items, n)[k], n - 1));
        }
    }
}

proof fn lemma_missing_targets_from(scans: Seq<ScanDoc>, items: Seq<Doc>, n: nat, k: int)
    requires
        n <= items.len(),
        0 <= k < missing_targets(scans, items, n).len(),
    ensures
        exists|i: int| is_item_target(scans, items, missing_targets(scans, items, n)[k], i),
    decreases n,
{
    if n > 0 {
        let before = missing_targets(scans, items, (n - 1) as nat);
        if k < before.len() {
            lemma_missing_targets_from(scans, items, (n - 1) as nat, k);
            assert(missing_targets(scans, items, n)[k] == before[k]);
        } else {
            assert(is_item_target(scans, items, missing_targets(scans, items, n)[k], n - 1));
        }
    }
}

/// After a stocktake of the whole store every item has the count that was
/// scanned of it: either that count is written, or it is on record already.
pub proof fn law_full_stocktake(scans: Seq<ScanDoc>, items: Seq<Doc>, i: int, id: Seq<char>)
    requires
        0 <= i < items.len(),
        items[i].text_at("id"@) == Some(id),
        forall|k: int| 0 <= k < scans.len() ==> (#[trigger] scans[k]).count > 0,
    ensures
        targets_of(scans, items, true).contains((id, item_count(scans, items, i))) || count_before(
            items[i],
        ) == item_count(scans, items, i),
{
    lemma_item_bounded(scans, items, i);
    let found = found_targets(scans, items, items.len());
    let missing = missing_targets(scans, items, items.len());
    let all = targets_of(scans, items, true);
    if item_count(scans, items, i) > 0 {
        lemma_found_target(scans, items, items.len(), i, id);
        let k = choose|k: int|
            0 <= k < found.len() && found[k] == (id, item_count(scans, items, i));
        assert(all[k] == found[k]);
    } else if count_before(items[i]) != 0 {
        lemma_missing_target(scans, items, items.len(), i, id);
        let k = choose|k: int| 0 <= k < missing.len() && missing[k] == (id, 0int);
        assert(all[found.len() + k] == missing[k]);
    }
}

/// A stocktake of a part of the store writes the counts of what was scanned,
/// and leaves the rest as it is.
pub proof fn law_partial_stocktake(scans: Seq<ScanDoc>, items: Seq<Doc>, k: int)
    requires
        0 <= k < targets_of(scans, items, false).len(),
    ensures
        targets_of(scans, items, false)[k].1 > 0,
        exists|i: int| is_item_target(scans, items, targets_of(scans, items, false)[k], i),
{
    lemma_found_targets_from(scans, items, items.len(), k);
}

/// Every count that a stocktake writes is that of an item: what was scanned
/// of it.
pub proof fn law_targets_are_counts(scans: Seq<ScanDoc>, items: Seq<Doc>, strict: bool, k: int)
    requires
        0 <= k < targets_of(scans, items, strict).len(),
    ensures
        exists|i: int| is_item_target(scans, items, targets_of(scans, items, strict)[k], i),
{
    let found = found_targets(scans, items, items.len());
    if k < found.len() {
        lemma_found_targets_from(scans, items, items.len(), k);
        assert(targets_of(scans, items, strict)[k] == found[k]);
    } else {
        lemma_missing_targets_from(scans, items, items.len(), k - found.len());
        assert(targets_of(scans, items, strict)[k] == missing_targets(scans, items, items.len())[k
            - found.len()]);
    }
}

/// The codes that belong to nothing stand by how often they were scanned, and
/// among equals by code.
pub proof fn law_strays_in_order(scans: Seq<ScanDoc>, items: Seq<Doc>)
    ensures
        order::stands_in_order(
            order::ranked(strays(scans, items), by_frequency()),
            by_frequency(),
        ),
{
    let le = by_frequency();
    assert forall|a: ScanDoc, b: ScanDoc| #[trigger] le(a, b) || le(b, a) by {
        text::lemma_in_order_total(a.code, b.code);
    }
    assert forall|a: ScanDoc, b: ScanDoc, c: ScanDoc| #[trigger] le(a, b) && #[trigger] le(
        b,
        c,
    ) implies le(a, c) by {
        if text::in_order(a.code, b.code) && text::in_order(b.code, c.code) {
            text::lemma_in_order_through(a.code, b.code, c.code);
        }
    }
    order::law_ranked_in_order(strays(scans, items), le);
}

/// Every scan of a file counts at least once.
pub proof fn law_scans_positive(file: Seq<char>, k: int)
    requires
        0 <= k < scans_in(file).len(),
    ensures
        scans_in(file)[k].count > 0,
{
    lemma_scans_count(file);
}

/// The codes of an item are among the codes of all.
proof fn lemma_codes_on(items: Seq<Doc>, i: int, code: Seq<char>)
    requires
        0 <= i < items.len(),
        match_codes(items[i]).contains(code),
    ensures
        codes_on(items).contains(code),
    decreases items.len(),
{
    let before = codes_on(items.drop_last());
    let own = match_codes(items.last());
    if i == items.len() - 1 {
        let k = choose|k: int| 0 <= k < own.len() && own[k] == code;
        assert((before + own)[before.len() + k] == code);
    } else {
        lemma_codes_on(items.drop_last(), i, code);
        let k = choose|k: int| 0 <= k < before.len() && before[k] == code;
        assert((before + own)[k] == code);
    }
}

/// A code that stands on more than one item is flagged, and no other is; each
/// is flagged once, and its scans go to the last item that has it.
pub proof fn law_shared_codes_flagged(items: Seq<Doc>, code: Seq<char>)
    ensures
        shared_codes(items).contains(code) == is_shared(items, code),
        shared_codes(items).no_duplicates(),
        match place_with(items, code) {
            Some(i) => 0 <= i < items.len() && match_codes(items[i]).contains(code) && forall|j: int|
                i < j < items.len() ==> !(#[trigger] match_codes(items[j]).contains(code)),
            None => !is_shared(items, code),
        },
{
    let keep = |c: Seq<char>| is_shared(items, c);
    let all = lists::first_seen(codes_on(items));
    lists::lemma_first_seen(codes_on(items));
    lemma_filter_distinct(all, keep);
    lists::lemma_filter_holds(all, keep, code);
    lemma_seen_all(codes_on(items), code);
    lemma_place_is_last(items, code);
    if is_shared(items, code) {
        let (i, j) = choose|i: int, j: int|
            0 <= i < j < items.len() && #[trigger] match_codes(items[i]).contains(code)
                && #[trigger] match_codes(items[j]).contains(code);
        lemma_codes_on(items, i, code);
    }
}

proof fn lemma_place_is_last(items: Seq<Doc>, code: Seq<char>)
    ensures
        match place_with(items, code) {
            Some(i) => 0 <= i < items.len() && match_codes(items[i]).contains(code) && forall|j: int|
                i < j < items.len() ==> !(#[trigger] match_codes(items[j]).contains(code)),
            None => forall|j: int|
                0 <= j < items.len() ==> !(#[trigger] match_codes(items[j]).contains(code)),
        },
    decreases items.len(),
{
    if items.len() > 0 && !match_codes(items.last()).contains(code) {
        let front = items.drop_last();
        lemma_place_is_last(front, code);
        assert forall|j: int|
            0 <= j < items.len() && match_codes(items[j]).contains(code) implies place_with(
            front,
            code,
        ) is Some && j <= place_with(front, code)->0 by {
            assert(front[j] == items[j]);
            assert(match_codes(front[j]).contains(code));
        }
    }
}

/// No two of these names are the same.
proof fn lemma_report_names()
    ensures
        "ok"@.len() == 2,
        "applied"@.len() == 7,
        "mode"@.len() == 4,
        "lines_parsed"@.len() == 12,
        "total_scans"@.len() == 11,
        "unique_codes"@.len() == 12,
        "items_matched"@.len() == 13,
        "updates"@.len() == 7,
        "unmatched"@.len() == 9,
        "not_scanned"@.len() == 11,
        "shared_codes"@.len() == 12,
        "applied_writes"@.len() == 14,
        "write_errors"@.len() == 12,
        "applied"@ != "updates"@,
        "lines_parsed"@ != "unique_codes"@,
        "lines_parsed"@ != "shared_codes"@,
        "lines_parsed"@ != "write_errors"@,
        "total_scans"@ != "not_scanned"@,
        "unique_codes"@ != "shared_codes"@,
        "unique_codes"@ != "write_errors"@,
        "shared_codes"@ != "write_errors"@,
{
    reveal_strlit("ok");
    reveal_strlit("applied");
    reveal_strlit("mode");
    reveal_strlit("lines_parsed");
    reveal_strlit("total_scans");
    reveal_strlit("unique_codes");
    reveal_strlit("items_matched");
    reveal_strlit("updates");
    reveal_strlit("unmatched");
    reveal_strlit("not_scanned");
    reveal_strlit("shared_codes");
    reveal_strlit("applied_writes");
    reveal_strlit("write_errors");
    assert("applied"@[0] != "updates"@[0]);
    assert("lines_parsed"@[0] != "unique_codes"@[0]);
    assert("lines_parsed"@[0] != "shared_codes"@[0]);
    assert("lines_parsed"@[0] != "write_errors"@[0]);
    assert("total_scans"@[0] != "not_scanned"@[0]);
    assert("unique_codes"@[0] != "shared_codes"@[0]);
    assert("unique_codes"@[0] != "write_errors"@[0]);
    assert("shared_codes"@[0] != "write_errors"@[0]);
}

/// No two of these names are the same.
proof fn lemma_count_row_names()
    ensures
        "id"@.len() == 2,
        "name"@.len() == 4,
        "id_number"@.len() == 9,
        "was"@.len() == 3,
        "now"@.len() == 3,
        "diff"@.len() == 4,
        "name"@ != "diff"@,
        "was"@ != "now"@,
{
    reveal_strlit("id");
    reveal_strlit("name");
    reveal_strlit("id_number");
    reveal_strlit("was");
    reveal_strlit("now");
    reveal_strlit("diff");
    assert("name"@[0] != "diff"@[0]);
    assert("was"@[0] != "now"@[0]);
}

proof fn lemma_filter_one(w: Seq<char>, keep: spec_fn(Seq<char>) -> bool)
    ensures
        seq![w].filter(keep) == if keep(w) {
            seq![w]
        } else {
            Seq::<Seq<char>>::empty()
        },
{
    lists::lemma_filter_none(keep);
    lists::lemma_filter_push(Seq::<Seq<char>>::empty(), w, keep);
    assert(Seq::<Seq<char>>::empty().push(w) =~= seq![w]);
}

proof fn lemma_one_line(line: Seq<char>)
    requires
        forall|i: int| 0 <= i < line.len() ==> #[trigger] line[i] != '\n',
    ensures
        lines_of(line) == seq![line],
        scans_in(line) == match scan_on(line) {
            Some(s) => seq![s],
            None => Seq::<ScanDoc>::empty(),
        },
        scan_lines(line) == if is_scan_line(line) {
            1nat
        } else {
            0
        },
{
    text::law_pieces(line, '\n', line, text::Cut::Line);
    let f = |l: Seq<char>| scan_on(l);
    lists::law_picked_grows(Seq::<Seq<char>>::empty(), line, f);
    assert(Seq::<Seq<char>>::empty().push(line) =~= seq![line]);
    assert(lists::picked(Seq::<Seq<char>>::empty(), f) =~= Seq::<ScanDoc>::empty());
    if let Some(s) = scan_on(line) {
        assert(Seq::<ScanDoc>::empty().push(s) =~= seq![s]);
    }
    lemma_filter_one(line, |l: Seq<char>| is_scan_line(l));
}

/// A line with a code and nothing else is one scan of that code. A code may
/// be any text without a comma and white space in it that does not begin with
/// a hash.
pub proof fn law_code_alone(code: Seq<char>)
    requires
        code.len() > 0,
        code[0] != '#',
        forall|i: int| 0 <= i < code.len() ==> #[trigger] code[i] != ',' && !text::is_space(code[i]),
    ensures
        scans_in(code) == seq![(ScanDoc { code, count: 1 })],
        scan_lines(code) == 1,
{
    assert forall|i: int| 0 <= i < code.len() implies #[trigger] code[i] != '\n' by {
        assert(!text::is_space(code[i]));
    }
    lemma_one_line(code);
    assert(!text::is_space(code[code.len() - 1]));
    assert(!text::is_space(code[0]));
    text::law_trimmed_as_is(code);
    text::law_pieces(code, ',', code, text::Cut::CommaOrSpace);
    lemma_filter_one(code, |w: Seq<char>| w.len() > 0);
}

/// A line with a code, a comma or white space, and a number above zero is that
/// many scans of the code.
pub proof fn law_code_with_count(code: Seq<char>, sep: char, n: i64)
    requires
        code.len() > 0,
        code[0] != '#',
        forall|i: int| 0 <= i < code.len() ==> #[trigger] code[i] != ',' && !text::is_space(code[i]),
        sep == ',' || text::is_space(sep),
        sep != '\n',
        n > 0,
    ensures
        scans_in(code.push(sep) + digits::decimal(n as nat)) == seq![(ScanDoc { code, count: n })],
{
    let d = digits::decimal(n as nat);
    digits::lemma_decimal_digits(n as nat);
    digits::law_signed_read_back(n);
    assert(digits::signed_decimal(n as int) == d);
    assert forall|i: int| 0 <= i < d.len() implies #[trigger] d[i] != ',' && !text::is_space(d[i]) by {
        assert(digits::is_digit(d[i]));
    }
    lemma_two_words(code, sep, d);
}

proof fn lemma_two_words(code: Seq<char>, sep: char, word: Seq<char>)
    requires
        code.len() > 0,
        code[0] != '#',
        forall|i: int| 0 <= i < code.len() ==> #[trigger] code[i] != ',' && !text::is_space(code[i]),
        word.len() > 0,
        forall|i: int| 0 <= i < word.len() ==> #[trigger] word[i] != ',' && !text::is_space(word[i]),
        sep == ',' || text::is_space(sep),
        sep != '\n',
    ensures
        scans_in(code.push(sep) + word) == seq![
            (ScanDoc { code, count: count_on(seq![code, word]) }),
        ],
{
    let line = code.push(sep) + word;
    let cut = text::Cut::CommaOrSpace;
    let keep = |w: Seq<char>| w.len() > 0;
    assert forall|i: int| 0 <= i < line.len() implies #[trigger] line[i] != '\n' by {
        if i < code.len() {
            assert(line[i] == code[i]);
            assert(!text::is_space(code[i]));
        } else if i > code.len() {
            assert(line[i] == word[i - code.len() - 1]);
            assert(!text::is_space(word[i - code.len() - 1]));
        }
    }
    lemma_one_line(line);
    assert(line[0] == code[0]);
    assert(line.last() == word[word.len() - 1]);
    assert(!text::is_space(code[0]) && !text::is_space(word[word.len() - 1]));
    text::law_trimmed_as_is(line);
    text::law_pieces(code, sep, word, cut);
    text::law_pieces(word, sep, word, cut);
    lemma_filter_one(code, keep);
    assert(seq![code] + seq![word] =~= seq![code].push(word));
    lists::lemma_filter_push(seq![code], word, keep);
    assert(seq![code].push(word) =~= seq![code, word]);
    assert(words_of(line) == seq![code, word]);
}

/// A line that is blank, or whose first character that is no white space is a
/// hash, holds no scan.
pub proof fn law_blank_or_comment(line: Seq<char>)
    requires
        forall|i: int| 0 <= i < line.len() ==> #[trigger] line[i] != '\n',
        text::trimmed(line).len() == 0 || text::trimmed(line)[0] == '#',
    ensures
        scans_in(line).len() == 0,
        scan_lines(line) == 0,
{
    lemma_one_line(line);
}

/// The scans of a file are those of its lines, one after the other.
pub proof fn law_scans_line_by_line(a: Seq<char>, b: Seq<char>)
    ensures
        scans_in(a.push('\n') + b) == scans_in(a) + scans_in(b),
        scan_lines(a.push('\n') + b) == scan_lines(a) + scan_lines(b),
{
    text::law_pieces(a, '\n', b, text::Cut::Line);
    lemma_picked_sum(lines_of(a), lines_of(b), |l: Seq<char>| scan_on(l));
    lemma_filter_sum(lines_of(a), lines_of(b), |l: Seq<char>| is_scan_line(l));
}

proof fn lemma_picked_sum<T, U>(a: Seq<T>, b: Seq<T>, f: spec_fn(T) -> Option<U>)
    ensures
        lists::picked(a + b, f) == lists::picked(a, f) + lists::picked(b, f),
    decreases b.len(),
{
    if b.len() == 0 {
        assert(a + b =~= a);
        assert(lists::picked(a, f) + lists::picked(b, f) =~= lists::picked(a, f));
    } else {
        lemma_picked_sum(a, b.drop_last(), f);
        assert((a + b).drop_last() =~= a + b.drop_last());
        assert(lists::picked(a + b, f) =~= lists::picked(a, f) + lists::picked(b, f));
    }
}

proof fn lemma_filter_sum<T>(a: Seq<T>, b: Seq<T>, keep: spec_fn(T) -> bool)
    ensures
        (a + b).filter(keep) == a.filter(keep) + b.filter(keep),
    decreases b.len(),
{
    if b.len() == 0 {
        assert(a + b =~= a);
        lists::lemma_filter_none(keep);
        assert(b =~= Seq::<T>::empty());
        assert(a.filter(keep) + b.filter(keep) =~= a.filter(keep));
    } else {
        let front = b.drop_last();
        lemma_filter_sum(a, front, keep);
        assert(a + b =~= (a + front).push(b.last()));
        assert(b =~= front.push(b.last()));
        lists::lemma_filter_push(a + front, b.last(), keep);
        lists::lemma_filter_push(front, b.last(), keep);
        assert((a + b).filter(keep) =~= a.filter(keep) + b.filter(keep));
    }
}

/// Every line that is neither blank nor a comment, and that holds a word
/// between commas and white space, is a scan of its first word.
pub proof fn law_line_is_scanned(file: Seq<char>, i: int, p: int)
    requires
        0 <= i < text::pieces(file, text::Cut::Line).len(),
        ({
            let t = text::trimmed(text::pieces(file, text::Cut::Line)[i]);
            let words = text::pieces(t, text::Cut::CommaOrSpace);
            &&& t.len() > 0
            &&& t[0] != '#'
            &&& 0 <= p < words.len()
            &&& words[p].len() > 0
            &&& forall|q: int| 0 <= q < p ==> (#[trigger] words[q]).len() == 0
        }),
    ensures
        exists|k: int|
            0 <= k < scans_in(file).len() && (#[trigger] scans_in(file)[k]).code == text::pieces(
                text::trimmed(text::pieces(file, text::Cut::Line)[i]),
                text::Cut::CommaOrSpace,
            )[p],
{
    let lines = lines_of(file);
    let f = |l: Seq<char>| scan_on(l);
    let t = text::trimmed(lines[i]);
    let words = text::pieces(t, text::Cut::CommaOrSpace);
    lemma_first_kept(words, p);
    assert(words_of(lines[i])[0] == words[p]);
    assert(scan_on(lines[i]) is Some);
    lists::lemma_picked_has(lines, f, i);
    let k = choose|k: int| 0 <= k < scans_in(file).len() && scans_in(file)[k] == f(lines[i])->0;
    assert(scans_in(file)[k].code == words[p]);
}

proof fn lemma_first_kept(words: Seq<Seq<char>>, p: int)
    requires
        0 <= p < words.len(),
        words[p].len() > 0,
        forall|q: int| 0 <= q < p ==> (#[trigger] words[q]).len() == 0,
    ensures
        words.filter(|w: Seq<char>| w.len() > 0).len() > 0,
        words.filter(|w: Seq<char>| w.len() > 0)[0] == words[p],
    decreases words.len(),
{
    let keep = |w: Seq<char>| w.len() > 0;
    let front = words.drop_last();
    assert(words =~= front.push(words.last()));
    lists::lemma_filter_push(front, words.last(), keep);
    if p < front.len() {
        assert forall|q: int| 0 <= q < p implies (#[trigger] front[q]).len() == 0 by {
            assert(front[q] == words[q]);
        }
        lemma_first_kept(front, p);
    } else {
        let kept = front.filter(keep);
        if kept.len() > 0 {
            assert(kept.contains(kept[0]));
            lists::lemma_filter_holds(front, keep, kept[0]);
            let q = choose|q: int| 0 <= q < front.len() && front[q] == kept[0];
            assert(words[q].len() == 0);
        }
    }
}

/// The lines that count as parsed are those that are neither blank nor a
/// comment.
pub proof fn law_lines_parsed(file: Seq<char>, items: Seq<Doc>, strict: bool)
    ensures
        plan_of(file, items, strict).lines_parsed == text::pieces(file, text::Cut::Line).filter(
            |l: Seq<char>| text::trimmed(l).len() > 0 && text::trimmed(l)[0] != '#',
        ).len(),
{
    let keep = |l: Seq<char>| text::trimmed(l).len() > 0 && text::trimmed(l)[0] != '#';
    assert(keep =~= (|l: Seq<char>| is_scan_line(l)));
}

/// A plan says how often anything was scanned, how many different codes and
/// how many items were, and nothing of the order of lines changes it.
pub proof fn law_plan_counts(file: Seq<char>, items: Seq<Doc>, strict: bool)
    ensures
        plan_of(file, items, strict).total_scans == total_of(scans_in(file)),
        plan_of(file, items, strict).items_matched == plan_of(file, items, strict).updates.len(),
        plan_of(file, items, strict).strict == strict,
        !strict ==> plan_of(file, items, strict).not_scanned.len() == 0,
{
    order::lemma_ranked_len(found_rows(scans_in(file), items, items.len()), by_lower_name());
}

/// One more scan is one more for its code, for the item that has the code,
/// and for all scans together.
pub proof fn law_one_more_scan(scans: Seq<ScanDoc>, s: ScanDoc, items: Seq<Doc>, i: int, code: Seq<char>)
    ensures
        total_of(scans.push(s)) == total_of(scans) + s.count,
        times_scanned(scans.push(s), s.code) == times_scanned(scans, s.code) + s.count,
        code != s.code ==> times_scanned(scans.push(s), code) == times_scanned(scans, code),
        place_with(items, text::lowered(s.code)) == Some(i) ==> item_count(
            scans.push(s),
            items,
            i,
        ) == item_count(scans, items, i) + s.count,
        place_with(items, text::lowered(s.code)) != Some(i) ==> item_count(
            scans.push(s),
            items,
            i,
        ) == item_count(scans, items, i),
        total_of(Seq::<ScanDoc>::empty()) == 0,
        times_scanned(Seq::<ScanDoc>::empty(), code) == 0,
        item_count(Seq::<ScanDoc>::empty(), items, i) == 0,
{
    assert(scans.push(s).drop_last() =~= scans);
}

/// An item is known by the texts among its barcodes, trimmed and in small
/// letters, but for empty ones.
pub proof fn law_item_is_known_by(item: Doc, codes: Seq<Doc>, key: Seq<char>)
    requires
        item.get("barcodes"@) == Some(Doc::Array(codes)),
    ensures
        match_codes(item).contains(key) <==> key.len() > 0 && exists|i: int|
            0 <= i < codes.len() && (#[trigger] codes[i] matches Doc::Str(s) && text::lowered(
                text::trimmed(s),
            ) == key),
{
    let f = |d: Doc| match_item(d);
    let known = match_codes(item);
    if known.contains(key) {
        let k = choose|k: int| 0 <= k < known.len() && known[k] == key;
        lists::lemma_picked_from(codes, f, k);
        let j = choose|j: int| 0 <= j < codes.len() && f(#[trigger] codes[j]) == Some(known[k]);
        assert(codes[j] is Str);
    }
    if key.len() > 0 && exists|i: int|
        0 <= i < codes.len() && (#[trigger] codes[i] matches Doc::Str(s) && text::lowered(
            text::trimmed(s),
        ) == key) {
        let i = choose|i: int|
            0 <= i < codes.len() && (#[trigger] codes[i] matches Doc::Str(s) && text::lowered(
                text::trimmed(s),
            ) == key);
        assert(f(codes[i]) == Some(key));
        lists::lemma_picked_has(codes, f, i);
    }
}

/// A line of the report names an item as its record does, and says what was
/// on record, what there is now, and by how much they differ.
pub proof fn law_count_row(item: Doc, now: int, k: Seq<char>)
    ensures
        k == "id"@ || k == "name"@ || k == "id_number"@ ==> count_row(item, now).text_at(k) == Some(
            item.text_in(k),
        ),
        count_row(item, now).get("was"@) == Some(
            Doc::num(
                match item.get("current_count"@) {
                    Some(v) => match v.integer() {
                        Some(n) => n as int,
                        None => 0,
                    },
                    None => 0,
                },
            ),
        ),
        count_row(item, now).get("now"@) == Some(Doc::num(now)),
        count_row(item, now).get("diff"@) == Some(Doc::num(now - count_before(item))),
{
    lemma_count_row_names();
}

proof fn lemma_found_row(scans: Seq<ScanDoc>, items: Seq<Doc>, n: nat, i: int)
    requires
        0 <= i < n,
    ensures
        item_count(scans, items, i) > 0 ==> found_rows(scans, items, n).contains(
            count_row(items[i], item_count(scans, items, i)),
        ),
        went_missing(scans, items, i) ==> missing_rows(scans, items, n).contains(
            count_row(items[i], 0),
        ),
    decreases n,
{
    let m = (n - 1) as nat;
    let a = found_rows(scans, items, m);
    let b = missing_rows(scans, items, m);
    if i < m {
        lemma_found_row(scans, items, m, i);
        if item_count(scans, items, i) > 0 {
            let x = count_row(items[i], item_count(scans, items, i));
            let k = choose|k: int| 0 <= k < a.len() && a[k] == x;
            assert(found_rows(scans, items, n)[k] == x);
        }
        if went_missing(scans, items, i) {
            let x = count_row(items[i], 0);
            let k = choose|k: int| 0 <= k < b.len() && b[k] == x;
            assert(missing_rows(scans, items, n)[k] == x);
        }
    } else {
        if item_count(scans, items, i) > 0 {
            assert(found_rows(scans, items, n).last() == count_row(
                items[i],
                item_count(scans, items, i),
            ));
        }
        if went_missing(scans, items, i) {
            assert(missing_rows(scans, items, n).last() == count_row(items[i], 0));
        }
    }
}

proof fn lemma_rows_are_items(scans: Seq<ScanDoc>, items: Seq<Doc>, n: nat, x: Doc)
    requires
        n <= items.len(),
    ensures
        found_rows(scans, items, n).contains(x) ==> exists|i: int|
            0 <= i < n && item_count(scans, items, i) > 0 && x == count_row(
                #[trigger] items[i],
                item_count(scans, items, i),
            ),
        missing_rows(scans, items, n).contains(x) ==> exists|i: int|
            0 <= i < n && went_missing(scans, items, i) && x == count_row(#[trigger] items[i], 0),
    decreases n,
{
    if n > 0 {
        let m = (n - 1) as nat;
        let a = found_rows(scans, items, m);
        let b = missing_rows(scans, items, m);
        lemma_rows_are_items(scans, items, m, x);
        if found_rows(scans, items, n).contains(x) {
            let k = choose|k: int|
                0 <= k < found_rows(scans, items, n).len() && found_rows(scans, items, n)[k] == x;
            if k < a.len() {
                assert(a[k] == x);
                assert(a.contains(x));
            } else {
                assert(x == count_row(items[m as int], item_count(scans, items, m as int)));
            }
        }
        if missing_rows(scans, items, n).contains(x) {
            let k = choose|k: int|
                0 <= k < missing_rows(scans, items, n).len() && missing_rows(scans, items, n)[k]
                    == x;
            if k < b.len() {
                assert(b[k] == x);
                assert(b.contains(x));
            } else {
                assert(x == count_row(items[m as int], 0));
            }
        }
    }
}

/// The report lists every item that was scanned, with how often, and a full
/// one every item that has a count on record and was not scanned, with none
/// left.
pub proof fn law_report_lists(file: Seq<char>, items: Seq<Doc>, strict: bool, i: int)
    requires
        0 <= i < items.len(),
    ensures
        item_count(scans_in(file), items, i) > 0 ==> plan_of(file, items, strict).updates.contains(
            count_row(items[i], item_count(scans_in(file), items, i)),
        ),
        strict && item_count(scans_in(file), items, i) == 0 && count_before(items[i]) != 0
            ==> plan_of(file, items, strict).not_scanned.contains(count_row(items[i], 0)),
{
    let scans = scans_in(file);
    lemma_found_row(scans, items, items.len(), i);
    order::lemma_ranked_holds(
        found_rows(scans, items, items.len()),
        by_lower_name(),
        count_row(items[i], item_count(scans, items, i)),
    );
    order::lemma_ranked_holds(
        missing_rows(scans, items, items.len()),
        by_lower_name(),
        count_row(items[i], 0),
    );
}

/// The report lists nothing else.
pub proof fn law_report_lists_only(file: Seq<char>, items: Seq<Doc>, strict: bool, x: Doc)
    ensures
        plan_of(file, items, strict).updates.contains(x) ==> exists|i: int|
            0 <= i < items.len() && item_count(scans_in(file), items, i) > 0 && x == count_row(
                #[trigger] items[i],
                item_count(scans_in(file), items, i),
            ),
        plan_of(file, items, strict).not_scanned.contains(x) ==> strict && exists|i: int|
            0 <= i < items.len() && item_count(scans_in(file), items, i) == 0 && count_before(
                #[trigger] items[i],
            ) != 0 && x == count_row(items[i], 0),
{
    let scans = scans_in(file);
    order::lemma_ranked_holds(found_rows(scans, items, items.len()), by_lower_name(), x);
    order::lemma_ranked_holds(missing_rows(scans, items, items.len()), by_lower_name(), x);
    lemma_rows_are_items(scans, items, items.len(), x);
    if plan_of(file, items, strict).not_scanned.contains(x) {
        let i = choose|i: int|
            0 <= i < items.len() && went_missing(scans, items, i) && x == count_row(
                #[trigger] items[i],
                0,
            );
        assert(count_before(items[i]) != 0);
    }
}

/// A stocktake is taken for a full one unless it is said to be partial.
pub proof fn law_strict(mode: Seq<char>)
    ensures
        is_strict(None),
        is_strict(Some(mode)) <==> text::lowered(text::trimmed(mode)) != "partial"@,
{
}

/// A code that belongs to nothing is reported with how often it was scanned,
/// and a code that belongs to an item is not.
pub proof fn law_strays(scans: Seq<ScanDoc>, items: Seq<Doc>, code: Seq<char>, k: int)
    ensures
        stray_codes(scans, items).contains(code) <==> place_with(items, text::lowered(code)) is None
            && exists|i: int| 0 <= i < scans.len() && (#[trigger] scans[i]).code == code,
        0 <= k < strays(scans, items).len() ==> strays(scans, items)[k].code == stray_codes(
            scans,
            items,
        )[k],
        0 <= k < strays(scans, items).len() ==> strays(scans, items)[k].count == times_scanned(
            scans,
            strays(scans, items)[k].code,
        ) as i64,
{
    let all = scans.map_values(|s: ScanDoc| s.code);
    let keep = |c: Seq<char>| item_for(items, c) is None;
    lists::lemma_filter_holds(codes_of(scans), keep, code);
    lists::lemma_first_seen_has(all, code);
    if all.contains(code) {
        let i = choose|i: int| 0 <= i < all.len() && all[i] == code;
        assert(scans[i].code == code);
    }
    if exists|i: int| 0 <= i < scans.len() && (#[trigger] scans[i]).code == code {
        let i = choose|i: int| 0 <= i < scans.len() && (#[trigger] scans[i]).code == code;
        assert(all[i] == code);
    }
}

/// The count that is reported of a code that belongs to nothing is how often
/// it was scanned.
pub proof fn law_stray_count(s: ScanDoc)
    ensures
        stray_row(s).get("count"@) == Some(Doc::num(s.count as int)),
        stray_row(s).text_at("code"@) == Some(s.code),
{
    reveal_strlit("code");
    reveal_strlit("count");
    assert("code"@.len() == 4 && "count"@.len() == 5);
}

/// The report says under each name what the plan says under it.
pub proof fn law_report(plan: PlanDoc, applied: bool, outcomes: Seq<Option<Seq<char>>>)
    ensures
        ({
            let r = report_of(plan, applied, outcomes);
            &&& r.get("ok"@) == Some(Doc::Bool(true))
            &&& r.get("applied"@) == Some(Doc::Bool(applied))
            &&& r.text_at("mode"@) == Some(
                if plan.strict {
                    "strict"@
                } else {
                    "partial"@
                },
            )
            &&& r.get("lines_parsed"@) == Some(Doc::num(plan.lines_parsed))
            &&& r.get("total_scans"@) == Some(Doc::num(plan.total_scans))
            &&& r.get("unique_codes"@) == Some(Doc::num(plan.unique_codes))
            &&& r.get("items_matched"@) == Some(Doc::num(plan.items_matched))
            &&& r.items_at("updates"@) == Some(plan.updates)
            &&& r.items_at("unmatched"@) == Some(plan.unmatched)
            &&& r.items_at("not_scanned"@) == Some(plan.not_scanned)
            &&& !applied ==> r.get("applied_writes"@) == Some(Doc::num(0)) && r.items_at(
                "write_errors"@,
            ) == Some(Seq::<Doc>::empty())
            &&& r.items_at("shared_codes"@) matches Some(v) && v.len() == plan.shared.len()
                && forall|i: int|
                0 <= i < v.len() ==> #[trigger] v[i] == Doc::Str(plan.shared[i])
        }),
{
    lemma_report_names();
}

/// A report of counts that were written says how many were, and why each of
/// the others was not.
pub proof fn law_report_of_writes(plan: PlanDoc, outcomes: Seq<Option<Seq<char>>>)
    requires
        outcomes.len() == plan.targets.len(),
    ensures
        report_of(plan, true, outcomes).items_at("write_errors"@) matches Some(errors)
            && report_of(plan, true, outcomes).get("applied_writes"@) == Some(
            Doc::num(plan.targets.len() - errors.len()),
        ) && forall|i: int|
            0 <= i < outcomes.len() ==> (#[trigger] outcomes[i] matches Some(why)
                ==> errors.contains(Doc::Str(plan.targets[i].0 + ": "@ + why))),
        (forall|i: int| 0 <= i < outcomes.len() ==> #[trigger] outcomes[i] is None) ==> report_of(
            plan,
            true,
            outcomes,
        ).items_at("write_errors"@) == Some(Seq::<Doc>::empty()),
{
    lemma_report_names();
    let n = plan.targets.len();
    assert forall|i: int| 0 <= i < outcomes.len() implies (#[trigger] outcomes[i] matches Some(why)
        ==> write_errors(plan.targets, outcomes, n).contains(
        Doc::Str(plan.targets[i].0 + ": "@ + why),
    )) by {
        lemma_write_error(plan.targets, outcomes, n, i);
    }
    if forall|i: int| 0 <= i < outcomes.len() ==> #[trigger] outcomes[i] is None {
        lemma_no_write_errors(plan.targets, outcomes, n);
    }
}

proof fn lemma_write_error(
    targets: Seq<(Seq<char>, int)>,
    outcomes: Seq<Option<Seq<char>>>,
    n: nat,
    i: int,
)
    requires
        0 <= i < n,
    ensures
        outcomes[i] matches Some(why) ==> write_errors(targets, outcomes, n).contains(
            Doc::Str(targets[i].0 + ": "@ + why),
        ),
    decreases n,
{
    if let Some(why) = outcomes[i] {
        let x = Doc::Str(targets[i].0 + ": "@ + why);
        let before = write_errors(targets, outcomes, (n - 1) as nat);
        if i < n - 1 {
            lemma_write_error(targets, outcomes, (n - 1) as nat, i);
            let k = choose|k: int| 0 <= k < before.len() && before[k] == x;
            assert(write_errors(targets, outcomes, n)[k] == x);
        } else {
            assert(write_errors(targets, outcomes, n).last() == x);
        }
    }
}

proof fn lemma_no_write_errors(
    targets: Seq<(Seq<char>, int)>,
    outcomes: Seq<Option<Seq<char>>>,
    n: nat,
)
    requires
        n <= outcomes.len(),
        forall|i: int| 0 <= i < outcomes.len() ==> #[trigger] outcomes[i] is None,
    ensures
        write_errors(targets, outcomes, n) == Seq::<Doc>::empty(),
    decreases n,
{
    if n > 0 {
        lemma_no_write_errors(targets, outcomes, (n - 1) as nat);
        assert(outcomes[n - 1] is None);
    }
}


/// Where what follows a code is no number above zero, the line is one scan of
/// the code.
pub proof fn law_code_with_no_count(code: Seq<char>, sep: char, word: Seq<char>)
    requires
        code.len() > 0,
        code[0] != '#',
        forall|i: int| 0 <= i < code.len() ==> #[trigger] code[i] != ',' && !text::is_space(code[i]),
        word.len() > 0,
        forall|i: int| 0 <= i < word.len() ==> #[trigger] word[i] != ',' && !text::is_space(word[i]),
        sep == ',' || text::is_space(sep),
        sep != '\n',
        digits::read_signed(word) is None || digits::read_signed(word)->0 <= 0,
    ensures
        scans_in(code.push(sep) + word) == seq![(ScanDoc { code, count: 1 })],
{
    lemma_two_words(code, sep, word);
}

/// The counts that a plan writes: each is that of an item with an id, above
/// zero where it was scanned; in a full stocktake also zero where it was not.
pub proof fn law_plan_targets(file: Seq<char>, items: Seq<Doc>, strict: bool, i: int, id: Seq<char>)
    requires
        0 <= i < items.len(),
        items[i].text_at("id"@) == Some(id),
    ensures
        item_count(scans_in(file), items, i) > 0 ==> plan_of(file, items, strict).targets.contains(
            (id, item_count(scans_in(file), items, i)),
        ),
        strict && item_count(scans_in(file), items, i) == 0 && count_before(items[i]) != 0
            ==> plan_of(file, items, strict).targets.contains((id, 0int)),
        forall|k: int|
            0 <= k < plan_of(file, items, strict).targets.len() ==> exists|j: int|
                0 <= j < items.len() && items[j].text_at("id"@) == Some(
                    (#[trigger] plan_of(file, items, strict).targets[k]).0,
                ) && #[trigger] item_count(scans_in(file), items, j) == plan_of(
                    file,
                    items,
                    strict,
                ).targets[k].1,
        !strict ==> forall|k: int|
            0 <= k < plan_of(file, items, strict).targets.len() ==> (#[trigger] plan_of(
                file,
                items,
                strict,
            ).targets[k]).1 > 0,
{
    let scans = scans_in(file);
    let found = found_targets(scans, items, items.len());
    let missing = missing_targets(scans, items, items.len());
    let all = targets_of(scans, items, strict);
    if item_count(scans, items, i) > 0 {
        lemma_found_target(scans, items, items.len(), i, id);
        let k = choose|k: int|
            0 <= k < found.len() && found[k] == (id, item_count(scans, items, i));
        assert(all[k] == found[k]);
    }
    if strict && item_count(scans, items, i) == 0 && count_before(items[i]) != 0 {
        lemma_missing_target(scans, items, items.len(), i, id);
        let k = choose|k: int| 0 <= k < missing.len() && missing[k] == (id, 0int);
        assert(all[found.len() + k] == missing[k]);
    }
    assert forall|k: int| 0 <= k < all.len() implies exists|j: int|
        0 <= j < items.len() && items[j].text_at("id"@) == Some((#[trigger] all[k]).0)
            && #[trigger] item_count(scans, items, j) == all[k].1 by {
        law_targets_are_counts(scans, items, strict, k);
        let j = choose|j: int| is_item_target(scans, items, all[k], j);
        assert(item_count(scans, items, j) == all[k].1);
    }
    if !strict {
        assert forall|k: int| 0 <= k < all.len() implies (#[trigger] all[k]).1 > 0 by {
            law_partial_stocktake(scans, items, k);
        }
    }
}

proof fn lemma_by_lower_name_total()
    ensures
        order::total(by_lower_name()),
{
    let le = by_lower_name();
    assert forall|a: Doc, b: Doc| #[trigger] le(a, b) || le(b, a) by {
        text::lemma_in_order_total(
            text::lowered(a.text_in("name"@)),
            text::lowered(b.text_in("name"@)),
        );
    }
    assert forall|a: Doc, b: Doc, c: Doc| #[trigger] le(a, b) && #[trigger] le(b, c) implies le(
        a,
        c,
    ) by {
        text::lemma_in_order_through(
            text::lowered(a.text_in("name"@)),
            text::lowered(b.text_in("name"@)),
            text::lowered(c.text_in("name"@)),
        );
    }
}

/// The report has its items by name, whatever the case of letters, and the
/// codes that belong to nothing by how often they were scanned.
pub proof fn law_report_order(file: Seq<char>, items: Seq<Doc>, strict: bool, i: int, j: int)
    requires
        0 <= i < j,
    ensures
        j < plan_of(file, items, strict).updates.len() ==> text::in_order(
            text::lowered(plan_of(file, items, strict).updates[i].text_in("name"@)),
            text::lowered(plan_of(file, items, strict).updates[j].text_in("name"@)),
        ),
        j < plan_of(file, items, strict).not_scanned.len() ==> text::in_order(
            text::lowered(plan_of(file, items, strict).not_scanned[i].text_in("name"@)),
            text::lowered(plan_of(file, items, strict).not_scanned[j].text_in("name"@)),
        ),
        j < plan_of(file, items, strict).unmatched.len() ==> exists|a: ScanDoc, b: ScanDoc|
            #![trigger stray_row(a), stray_row(b)]
            plan_of(file, items, strict).unmatched[i] == stray_row(a) && plan_of(
                file,
                items,
                strict,
            ).unmatched[j] == stray_row(b) && (a.count > b.count || (a.count == b.count
                && text::in_order(a.code, b.code))),
{
    let scans = scans_in(file);
    let le = by_lower_name();
    lemma_by_lower_name_total();
    let found = order::ranked(found_rows(scans, items, items.len()), le);
    let missing = order::ranked(missing_rows(scans, items, items.len()), le);
    order::law_ranked_in_order(found_rows(scans, items, items.len()), le);
    order::law_ranked_in_order(missing_rows(scans, items, items.len()), le);
    if j < found.len() {
        assert(le(found[i], found[j]));
    }
    if j < missing.len() {
        assert(le(missing[i], missing[j]));
    }
    law_strays_in_order(scans, items);
    let lost = order::ranked(strays(scans, items), by_frequency());
    if j < lost.len() {
        assert(by_frequency()(lost[i], lost[j]));
        assert(plan_of(file, items, strict).unmatched[i] == stray_row(lost[i]));
        assert(plan_of(file, items, strict).unmatched[j] == stray_row(lost[j]));
    }
}

/// Every code that belongs to nothing has its line in the report, with how
/// often it was scanned.
pub proof fn law_stray_is_reported(file: Seq<char>, items: Seq<Doc>, strict: bool, i: int)
    requires
        0 <= i < scans_in(file).len(),
        place_with(items, text::lowered(scans_in(file)[i].code)) is None,
    ensures
        plan_of(file, items, strict).unmatched.contains(
            stray_row(
                (ScanDoc {
                    code: scans_in(file)[i].code,
                    count: times_scanned(scans_in(file), scans_in(file)[i].code) as i64,
                }),
            ),
        ),
{
    let scans = scans_in(file);
    let code = scans[i].code;
    let s = ScanDoc { code, count: times_scanned(scans, code) as i64 };
    law_strays(scans, items, code, 0);
    assert(stray_codes(scans, items).contains(code));
    let k = choose|k: int|
        0 <= k < stray_codes(scans, items).len() && stray_codes(scans, items)[k] == code;
    assert(strays(scans, items)[k] == s);
    order::lemma_ranked_holds(strays(scans, items), by_frequency(), s);
    let lost = order::ranked(strays(scans, items), by_frequency());
    let m = choose|m: int| 0 <= m < lost.len() && lost[m] == s;
    assert(plan_of(file, items, strict).unmatched[m] == stray_row(s));
}

/// A stocktake is only refused where numbers are beyond all measure: with
/// fewer than two to the 62 scans and counts on record within that, it is not.
pub proof fn law_stocktake_fits(scans: Seq<ScanDoc>, items: Seq<Doc>, strict: bool)
    requires
        forall|k: int| 0 <= k < scans.len() ==> (#[trigger] scans[k]).count > 0,
        total_of(scans) < 0x4000_0000_0000_0000,
        forall|i: int|
            0 <= i < items.len() ==> -0x4000_0000_0000_0000 < count_before(#[trigger] items[i])
                < 0x4000_0000_0000_0000,
    ensures
        counts_fit(scans, items, strict),
{
    assert forall|i: int|
        0 <= i < items.len() && #[trigger] item_count(scans, items, i) > 0 implies item_count(
        scans,
        items,
        i,
    ) - count_before(items[i]) <= i64::MAX by {
        lemma_item_bounded(scans, items, i);
    }
}

/// A count that is written changes the count and the time of the record, and
/// nothing else.
pub proof fn law_count_written(record: Doc, count: i64, now: u64, k: Seq<char>)
    requires
        record.is_object(),
    ensures
        count_written(record, count, now).get("current_count"@) == Some(Doc::num(count as int)),
        count_written(record, count, now).whole_at("updated_ms"@) == Some(now),
        k != "current_count"@ && k != "updated_ms"@ ==> count_written(record, count, now).get(k)
            == record.get(k),
{
    reveal_strlit("current_count");
    reveal_strlit("updated_ms");
    assert("current_count"@.len() == 13 && "updated_ms"@.len() == 10);
}

proof fn lemma_first_filled(words: Seq<Seq<char>>, p: int)
    requires
        0 <= p < words.len(),
        words[p].len() > 0,
        forall|k: int| 0 <= k < p ==> (#[trigger] words[k]).len() == 0,
    ensures
        words.filter(|w: Seq<char>| w.len() > 0) == seq![words[p]] + words.skip(p + 1).filter(
            |w: Seq<char>| w.len() > 0,
        ),
{
    let keep = |w: Seq<char>| w.len() > 0;
    let head = words.take(p + 1);
    let tail = words.skip(p + 1);
    lemma_none_filled(words.take(p));
    lists::lemma_filter_push(words.take(p), words[p], keep);
    assert(head =~= words.take(p).push(words[p]));
    assert(words =~= head + tail);
    lemma_filter_parts(head, tail, keep);
    assert(Seq::<Seq<char>>::empty().push(words[p]) =~= seq![words[p]]);
}

proof fn lemma_none_filled(words: Seq<Seq<char>>)
    requires
        forall|k: int| 0 <= k < words.len() ==> (#[trigger] words[k]).len() == 0,
    ensures
        words.filter(|w: Seq<char>| w.len() > 0) == Seq::<Seq<char>>::empty(),
    decreases words.len(),
{
    let keep = |w: Seq<char>| w.len() > 0;
    lists::lemma_filter_none(keep);
    if words.len() == 0 {
        assert(words =~= Seq::<Seq<char>>::empty());
    } else {
        let front = words.drop_last();
        assert forall|k: int| 0 <= k < front.len() implies (#[trigger] front[k]).len() == 0 by {
            assert(front[k] == words[k]);
        }
        lemma_none_filled(front);
        lists::lemma_filter_push(front, words.last(), keep);
        assert(words =~= front.push(words.last()));
    }
}

proof fn lemma_filter_parts<T>(a: Seq<T>, b: Seq<T>, keep: spec_fn(T) -> bool)
    ensures
        (a + b).filter(keep) == a.filter(keep) + b.filter(keep),
    decreases b.len(),
{
    lists::lemma_filter_none(keep);
    if b.len() == 0 {
        assert(a + b =~= a);
        assert(b =~= Seq::<T>::empty());
        assert(a.filter(keep) + b.filter(keep) =~= a.filter(keep));
    } else {
        let front = b.drop_last();
        lemma_filter_parts(a, front, keep);
        lists::lemma_filter_push(a + front, b.last(), keep);
        lists::lemma_filter_push(front, b.last(), keep);
        assert(a + b =~= (a + front).push(b.last()));
        assert(b =~= front.push(b.last()));
        assert(a.filter(keep) + b.filter(keep) =~= (a + front).push(b.last()).filter(keep));
    }
}

/// What is read of a line: its first word is the code and its second the count,
/// where that is a number from one up; otherwise it counts once. What follows
/// does not matter.
pub proof fn law_line_read(line: Seq<char>, p: int, q: int)
    requires
        forall|i: int| 0 <= i < line.len() ==> #[trigger] line[i] != '\n',
        text::trimmed(line).len() > 0,
        text::trimmed(line)[0] != '#',
        ({
            let words = text::pieces(text::trimmed(line), text::Cut::CommaOrSpace);
            &&& 0 <= p < words.len()
            &&& words[p].len() > 0
            &&& forall|k: int| 0 <= k < p ==> (#[trigger] words[k]).len() == 0
        }),
    ensures
        ({
            let words = text::pieces(text::trimmed(line), text::Cut::CommaOrSpace);
            &&& p < q < words.len() && words[q].len() > 0 && (forall|k: int|
                p < k < q ==> (#[trigger] words[k]).len() == 0) ==> scans_in(line) == seq![
                (ScanDoc {
                    code: words[p],
                    count: match digits::read_signed(words[q]) {
                        Some(n) => if n > 0 {
                            n
                        } else {
                            1
                        },
                        None => 1,
                    },
                }),
            ]
            &&& (forall|k: int| p < k < words.len() ==> (#[trigger] words[k]).len() == 0)
                ==> scans_in(line) == seq![(ScanDoc { code: words[p], count: 1 })]
        }),
{
    let words = text::pieces(text::trimmed(line), text::Cut::CommaOrSpace);
    lemma_first_filled(words, p);
    lemma_one_line(line);
    let rest = words.skip(p + 1);
    if p < q < words.len() && words[q].len() > 0 && (forall|k: int|
        p < k < q ==> (#[trigger] words[k]).len() == 0) {
        assert(rest[q - p - 1] == words[q]);
        assert forall|k: int| 0 <= k < q - p - 1 implies (#[trigger] rest[k]).len() == 0 by {
            assert(rest[k] == words[k + p + 1]);
        }
        lemma_first_filled(rest, q - p - 1);
        assert(words_of(line)[1] == words[q]);
    }
    if forall|k: int| p < k < words.len() ==> (#[trigger] words[k]).len() == 0 {
        assert forall|k: int| 0 <= k < rest.len() implies (#[trigger] rest[k]).len() == 0 by {
            assert(rest[k] == words[k + p + 1]);
        }
        lemma_none_filled(rest);
        assert(words_of(line).len() == 1);
    }
    assert(words_of(line)[0] == words[p]);
}

/// A line without a word gives no scan.
pub proof fn law_line_without_words(line: Seq<char>)
    requires
        forall|i: int| 0 <= i < line.len() ==> #[trigger] line[i] != '\n',
        ({
            let words = text::pieces(text::trimmed(line), text::Cut::CommaOrSpace);
            forall|k: int| 0 <= k < words.len() ==> (#[trigger] words[k]).len() == 0
        }),
    ensures
        scans_in(line).len() == 0,
{
    lemma_none_filled(text::pieces(text::trimmed(line), text::Cut::CommaOrSpace));
    lemma_one_line(line);
}

/// A code belongs to the last item that carries it, and to none exactly where
/// no item does.
pub proof fn law_code_belongs(items: Seq<Doc>, key: Seq<char>, i: int)
    ensures
        0 <= i < items.len() && match_codes(items[i]).contains(key) && (forall|j: int|
            i < j < items.len() ==> !(#[trigger] match_codes(items[j])).contains(key)) ==> place_with(
            items,
            key,
        ) == Some(i),
        place_with(items, key) is None <==> forall|j: int|
            0 <= j < items.len() ==> !(#[trigger] match_codes(items[j])).contains(key),
    decreases items.len(),
{
    if items.len() > 0 {
        let front = items.drop_last();
        law_code_belongs(front, key, i);
        assert forall|j: int| 0 <= j < front.len() implies #[trigger] match_codes(items[j])
            == match_codes(front[j]) by {
            assert(front[j] == items[j]);
        }
        assert(items[items.len() - 1] == items.last());
        if match_codes(items.last()).contains(key) {
            assert(match_codes(items[items.len() - 1]).contains(key));
        } else {
            if forall|j: int|
                0 <= j < front.len() ==> !(#[trigger] match_codes(front[j])).contains(key) {
                assert forall|j: int| 0 <= j < items.len() implies !(#[trigger] match_codes(
                    items[j],
                )).contains(key) by {
                    if j < front.len() {
                        assert(match_codes(items[j]) == match_codes(front[j]));
                    }
                }
            }
            if forall|j: int|
                0 <= j < items.len() ==> !(#[trigger] match_codes(items[j])).contains(key) {
                assert forall|j: int| 0 <= j < front.len() implies !(#[trigger] match_codes(
                    front[j],
                )).contains(key) by {
                    assert(match_codes(items[j]) == match_codes(front[j]));
                }
            }
            if 0 <= i < front.len() && forall|j: int|
                i < j < items.len() ==> !(#[trigger] match_codes(items[j])).contains(key) {
                assert forall|j: int| i < j < front.len() implies !(#[trigger] match_codes(
                    front[j],
                )).contains(key) by {
                    assert(match_codes(items[j]) == match_codes(front[j]));
                }
                assert(match_codes(items[i]) == match_codes(front[i]));
            }
        }
    }
}

/// An item without a list of codes has none.
pub proof fn law_item_without_codes(item: Doc)
    requires
        item.items_at("barcodes"@) is None,
    ensures
        match_codes(item).len() == 0,
{
}

/// Whether a list names each code that was scanned, once, and no other.
pub open spec fn names_codes(codes: Seq<Seq<char>>, scans: Seq<ScanDoc>) -> bool {
    &&& codes.no_duplicates()
    &&& forall|c: Seq<char>|
        #![trigger codes.contains(c)]
        codes.contains(c) <==> exists|i: int| 0 <= i < scans.len() && (#[trigger] scans[i]).code == c
}

/// The number of codes is how many differ among the scans.
pub proof fn law_unique_codes(file: Seq<char>, items: Seq<Doc>, strict: bool)
    ensures
        exists|codes: Seq<Seq<char>>| #[trigger]
            names_codes(codes, scans_in(file)) && codes.len() == plan_of(
                file,
                items,
                strict,
            ).unique_codes,
{
    let scans = scans_in(file);
    let all = scans.map_values(|s: ScanDoc| s.code);
    let codes = codes_of(scans);
    lists::lemma_first_seen(all);
    assert forall|c: Seq<char>|
        #![trigger codes.contains(c)]
        codes.contains(c) <==> exists|i: int| 0 <= i < scans.len() && (#[trigger] scans[i]).code
            == c by {
        lists::lemma_first_seen_has(all, c);
        if all.contains(c) {
            let i = choose|i: int| 0 <= i < all.len() && all[i] == c;
            assert(scans[i].code == c);
        }
        if exists|i: int| 0 <= i < scans.len() && (#[trigger] scans[i]).code == c {
            let i = choose|i: int| 0 <= i < scans.len() && (#[trigger] scans[i]).code == c;
            assert(all[i] == c);
        }
    }
    assert(names_codes(codes, scans));
}

proof fn lemma_rows_counted(scans: Seq<ScanDoc>, items: Seq<Doc>, n: nat)
    requires
        n <= items.len(),
    ensures
        found_rows(scans, items, n).len() == Seq::new(n, |i: int| i).filter(
            |i: int| item_count(scans, items, i) > 0,
        ).len(),
        missing_rows(scans, items, n).len() == Seq::new(n, |i: int| i).filter(
            |i: int| item_count(scans, items, i) == 0 && count_before(items[i]) != 0,
        ).len(),
        found_targets(scans, items, n).len() == Seq::new(n, |i: int| i).filter(
            |i: int| item_count(scans, items, i) > 0 && items[i].text_at("id"@) is Some,
        ).len(),
        missing_targets(scans, items, n).len() == Seq::new(n, |i: int| i).filter(
            |i: int|
                item_count(scans, items, i) == 0 && count_before(items[i]) != 0 && items[i].text_at(
                    "id"@,
                ) is Some,
        ).len(),
    decreases n,
{
    let a = |i: int| item_count(scans, items, i) > 0;
    let b = |i: int| item_count(scans, items, i) == 0 && count_before(items[i]) != 0;
    let c = |i: int| item_count(scans, items, i) > 0 && items[i].text_at("id"@) is Some;
    let d = |i: int|
        item_count(scans, items, i) == 0 && count_before(items[i]) != 0 && items[i].text_at(
            "id"@,
        ) is Some;
    let all = Seq::new(n, |i: int| i);
    lists::lemma_filter_none(a);
    lists::lemma_filter_none(b);
    lists::lemma_filter_none(c);
    lists::lemma_filter_none(d);
    if n == 0 {
        assert(all =~= Seq::<int>::empty());
    } else {
        let m = (n - 1) as nat;
        let front = Seq::new(m, |i: int| i);
        lemma_rows_counted(scans, items, m);
        assert(all =~= front.push(m as int));
        lists::lemma_filter_push(front, m as int, a);
        lists::lemma_filter_push(front, m as int, b);
        lists::lemma_filter_push(front, m as int, c);
        lists::lemma_filter_push(front, m as int, d);
    }
}

/// Each item that was scanned has one row, and one count to write where it has
/// an id; so does each that went missing, where missing items count as gone.
pub proof fn law_report_sizes(file: Seq<char>, items: Seq<Doc>, strict: bool)
    ensures
        ({
            let scans = scans_in(file);
            let plan = plan_of(file, items, strict);
            let all = Seq::new(items.len(), |i: int| i);
            let found = all.filter(|i: int| item_count(scans, items, i) > 0);
            let gone = all.filter(
                |i: int| item_count(scans, items, i) == 0 && count_before(items[i]) != 0,
            );
            &&& plan.updates.len() == found.len()
            &&& plan.items_matched == found.len()
            &&& strict ==> plan.not_scanned.len() == gone.len()
            &&& plan.targets.len() == all.filter(
                |i: int| item_count(scans, items, i) > 0 && items[i].text_at("id"@) is Some,
            ).len() + if strict {
                all.filter(
                    |i: int|
                        item_count(scans, items, i) == 0 && count_before(items[i]) != 0
                            && items[i].text_at("id"@) is Some,
                ).len()
            } else {
                0nat
            }
        }),
{
    let scans = scans_in(file);
    lemma_rows_counted(scans, items, items.len());
    order::lemma_ranked_len(found_rows(scans, items, items.len()), by_lower_name());
    order::lemma_ranked_len(missing_rows(scans, items, items.len()), by_lower_name());
}

/// Each code that no item carries is reported once.
pub proof fn law_strays_once(file: Seq<char>, items: Seq<Doc>, strict: bool)
    ensures
        stray_codes(scans_in(file), items).no_duplicates(),
        plan_of(file, items, strict).unmatched.len() == stray_codes(scans_in(file), items).len(),
{
    let scans = scans_in(file);
    lists::lemma_first_seen(scans.map_values(|s: ScanDoc| s.code));
    lemma_filter_distinct(codes_of(scans), |c: Seq<char>| item_for(items, c) is None);
    order::lemma_ranked_len(strays(scans, items), by_frequency());
}

/// Each count that could not be written is reported once.
pub proof fn law_write_errors_counted(plan: PlanDoc, outcomes: Seq<Option<Seq<char>>>)
    requires
        outcomes.len() == plan.targets.len(),
    ensures
        report_of(plan, true, outcomes).items_at("write_errors"@) matches Some(errors) && errors.len()
            == outcomes.filter(|o: Option<Seq<char>>| o is Some).len(),
{
    law_report_of_writes(plan, outcomes);
    let n = outcomes.len();
    lemma_errors_counted(plan.targets, outcomes, n);
    assert(outcomes.take(n as int) =~= outcomes);
    lemma_report_errors(plan, outcomes);
}

proof fn lemma_report_errors(plan: PlanDoc, outcomes: Seq<Option<Seq<char>>>)
    ensures
        report_of(plan, true, outcomes).items_at("write_errors"@) == Some(
            write_errors(plan.targets, outcomes, plan.targets.len()),
        ),
{
    reveal_strlit("write_errors");
}

proof fn lemma_errors_counted(
    targets: Seq<(Seq<char>, int)>,
    outcomes: Seq<Option<Seq<char>>>,
    n: nat,
)
    requires
        n <= outcomes.len(),
    ensures
        write_errors(targets, outcomes, n).len() == outcomes.take(n as int).filter(
            |o: Option<Seq<char>>| o is Some,
        ).len(),
    decreases n,
{
    let keep = |o: Option<Seq<char>>| o is Some;
    lists::lemma_filter_none(keep);
    if n == 0 {
        assert(outcomes.take(0) =~= Seq::<Option<Seq<char>>>::empty());
    } else {
        let m = (n - 1) as nat;
        lemma_errors_counted(targets, outcomes, m);
        lists::lemma_filter_push(outcomes.take(m as int), outcomes[m as int], keep);
        assert(outcomes.take(n as int) =~= outcomes.take(m as int).push(outcomes[m as int]));
    }
}

/// A code is reported as shared where two items carry it.
pub proof fn law_plan_shared(
    file: Seq<char>,
    items: Seq<Doc>,
    strict: bool,
    code: Seq<char>,
    i: int,
    j: int,
)
    ensures
        0 <= i < j < items.len() && match_codes(items[i]).contains(code) && match_codes(
            items[j],
        ).contains(code) ==> plan_of(file, items, strict).shared.contains(code),
        plan_of(file, items, strict).shared.contains(code) ==> exists|a: int, b: int|
            0 <= a < b < items.len() && #[trigger] match_codes(items[a]).contains(code)
                && #[trigger] match_codes(items[b]).contains(code),
{
    law_shared_codes_flagged(items, code);
}

} // verus!
