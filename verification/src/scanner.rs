//! Handheld scanners: pairing a phone by a token that is shown as a QR code,
//! the devices that are paired, and the scans that they send.
use crate::digits;
use crate::failure;
use crate::failure::{fail, Failure, Status};
use crate::json;
use crate::json::{Doc, Json};
use crate::lists;
use crate::order;
use crate::outside;
use crate::records;
use crate::text;
use vstd::prelude::*;

verus! {

/// What a token is made from: a counter of tokens, the time in nanoseconds
/// and the number of the process.
#[derive(Clone, Copy)]
pub struct Seed {
    pub counter: u64,
    pub time_ns: u64,
    pub pid: u32,
}

/// The number from which a token starts.
pub open spec fn first_state(seed: Seed) -> u64 {
    seed.time_ns.wrapping_mul(seed.counter.wrapping_add(1)).wrapping_add(
        seed.pid as u64,
    ).wrapping_mul(0x9E37_79B9_7F4A_7C15)
}

/// One step from a number to the next: the bits are shifted onto themselves.
pub open spec fn next_state(s: u64) -> u64 {
    let a = s ^ (s << 13u64);
    let b = a ^ (a >> 7u64);
    b ^ (b << 17u64)
}

/// A token: the next three numbers in hexadecimal.
pub open spec fn token_of(seed: Seed) -> Seq<char> {
    let a = next_state(first_state(seed));
    let b = next_state(a);
    let c = next_state(b);
    digits::hex(a as nat, 16) + digits::hex(b as nat, 16) + digits::hex(c as nat, 16)
}

fn step(s: u64) -> (r: u64)
    ensures
        r == next_state(s),
{
    let a = s ^ (s << 13u64);
    let b = a ^ (a >> 7u64);
    b ^ (b << 17u64)
}

pub fn scanner_new_token(seed: Seed) -> (r: String)
    ensures
        r@ == token_of(seed),
{
    let start = seed.time_ns.wrapping_mul(seed.counter.wrapping_add(1)).wrapping_add(
        seed.pid as u64,
    ).wrapping_mul(0x9E37_79B9_7F4A_7C15);
    let a = step(start);
    let b = step(a);
    let c = step(b);
    let x = digits::hex_text(a, 16);
    let y = digits::hex_text(b, 16);
    let z = digits::hex_text(c, 16);
    text::cat3(x.as_str(), y.as_str(), z.as_str())
}

/// An id: a prefix and the first digits of a token.
pub open spec fn id_of(prefix: Seq<char>, seed: Seed) -> Seq<char> {
    prefix + "-"@ + token_of(seed).take(16)
}

pub fn scanner_new_id(prefix: &str, seed: Seed) -> (r: String)
    ensures
        r@ == id_of(prefix@, seed),
{
    proof {
        law_token_shape(seed);
    }
    let token = text::chars_of(scanner_new_token(seed).as_str());
    let start = text::text_of(&token, 0, 16);
    assert(start@ =~= token_of(seed).take(16));
    text::cat3(prefix, "-", start.as_str())
}

/// Small hexadecimal digits.
pub open spec fn is_hex(c: char) -> bool {
    ('0' <= c <= '9') || ('a' <= c <= 'f')
}

proof fn lemma_hex_chars(n: nat, width: nat)
    ensures
        digits::hex(n, width).len() == width,
        forall|i: int| 0 <= i < width ==> is_hex(#[trigger] digits::hex(n, width)[i]),
    decreases width,
{
    if width > 0 {
        lemma_hex_chars(n / 16, (width - 1) as nat);
    }
}

/// A token is 48 hexadecimal digits long, whatever it is made from, and holds
/// no white space.
pub proof fn law_token_shape(seed: Seed)
    ensures
        token_of(seed).len() == 48,
        forall|i: int| 0 <= i < 48 ==> is_hex(#[trigger] token_of(seed)[i]),
        text::trimmed(token_of(seed)) == token_of(seed),
{
    let a = next_state(first_state(seed));
    let b = next_state(a);
    let c = next_state(b);
    lemma_hex_chars(a as nat, 16);
    lemma_hex_chars(b as nat, 16);
    lemma_hex_chars(c as nat, 16);
    let t = token_of(seed);
    assert forall|i: int| 0 <= i < 48 implies is_hex(#[trigger] t[i]) by {
        if i < 16 {
            assert(t[i] == digits::hex(a as nat, 16)[i]);
        } else if i < 32 {
            assert(t[i] == digits::hex(b as nat, 16)[i - 16]);
        } else {
            assert(t[i] == digits::hex(c as nat, 16)[i - 32]);
        }
    }
    assert(is_hex(t[0]) && is_hex(t[47]));
    assert(text::without_leading(t) == t);
    assert(text::without_trailing(t) == t);
}

/// For how long a token can be used, in milliseconds.
pub open spec fn ttl_of(settings: Option<Doc>) -> nat {
    let minutes = match settings {
        Some(s) => s.whole_or("scanner_pair_ttl_minutes"@, 0),
        None => 0,
    };
    if minutes > 0 {
        minutes as nat * 60_000
    } else {
        600_000
    }
}

pub fn scanner_pair_ttl_ms(settings: Option<&Json>) -> (r: u128)
    ensures
        r == ttl_of(json::opt_doc(settings)),
{
    let minutes: u64 = match settings {
        Some(s) => s.whole_or("scanner_pair_ttl_minutes", 0),
        None => 0,
    };
    if minutes > 0 {
        minutes as u128 * 60_000
    } else {
        600_000
    }
}

/// Whether a token can still be used.
pub open spec fn is_live(entry: Doc, now: nat) -> bool {
    match entry.whole_at("expires_ms"@) {
        Some(e) => e > now,
        None => false,
    }
}

/// The tokens that can still be used.
pub open spec fn live(list: Seq<Doc>, now: nat) -> Seq<Doc> {
    list.filter(|t: Doc| is_live(t, now))
}

pub fn prune_expired_pair_tokens(list: Vec<Json>, now: u128) -> (r: Vec<Json>)
    ensures
        json::docs(r@) == live(json::docs(list@), now as nat),
{
    let ghost all = json::docs(list@);
    let ghost keep = |t: Doc| is_live(t, now as nat);
    let mut out: Vec<Json> = Vec::new();
    let mut i: usize = 0;
    proof {
        lists::lemma_filter_none(keep);
        assert(all.take(0) =~= Seq::<Doc>::empty());
        assert(json::docs(out@) =~= Seq::<Doc>::empty());
    }
    while i < list.len()
        invariant
            i <= list@.len(),
            all == json::docs(list@),
            keep == (|t: Doc| is_live(t, now as nat)),
            json::docs(out@) == all.take(i as int).filter(keep),
        decreases list@.len() - i,
    {
        proof {
            lists::lemma_filter_step(all, i as int, keep);
            assert(all[i as int] == list@[i as int]@);
        }
        let lives = match list[i].whole_at("expires_ms") {
            Some(e) => e as u128 > now,
            None => false,
        };
        if lives {
            let ghost before = out@;
            let copy = list[i].clone();
            out.push(copy);
            assert(json::docs(out@) =~= json::docs(before).push(copy@));
        }
        i = i + 1;
    }
    assert(all.take(i as int) =~= all);
    out
}

/// A time as it is stored: what fits into 64 bits.
pub open spec fn low_bits(n: nat) -> u64 {
    (n % 0x1_0000_0000_0000_0000) as u64
}

fn cut_to_u64(n: u128) -> (r: u64)
    ensures
        r == low_bits(n as nat),
{
    (n % 0x1_0000_0000_0000_0000) as u64
}

/// A token that waits for a phone.
pub open spec fn pair_entry(token: Seq<char>, server: Seq<char>, now: nat, expires: nat) -> Doc {
    Doc::object().with("token"@, Doc::Str(token)).with("server_url"@, Doc::Str(server)).with(
        "created_ms"@,
        Doc::num(low_bits(now) as int),
    ).with("expires_ms"@, Doc::num(low_bits(expires) as int)).with(
        "consumed_device_id"@,
        Doc::Null,
    )
}

/// The answer to a request for a token.
pub open spec fn pair_answer(token: Seq<char>, expires: nat) -> Doc {
    Doc::object().with("token"@, Doc::Str(token)).with(
        "expires_ms"@,
        Doc::num(low_bits(expires) as int),
    ).with("qr_url"@, Doc::Str("/api/scanner/pair/"@ + token + "/qr"@)).with(
        "status_url"@,
        Doc::Str("/api/scanner/pair/"@ + token + "/status"@),
    )
}

/// The tokens with a new one, and the answer to the request for it.
pub fn create_scanner_pair(
    list: Vec<Json>,
    server_url: &str,
    token: &str,
    settings: Option<&Json>,
    now: u128,
) -> (r: Result<(Vec<Json>, Json), Failure>)
    requires
        now <= 18446744073709551615999,
    ensures
        match r {
            Ok(p) => {
                let server = text::trimmed(server_url@);
                let expires = now as nat + ttl_of(json::opt_doc(settings));
                &&& server.len() > 0
                &&& json::docs(p.0@) == live(json::docs(list@), now as nat).push(
                    pair_entry(token@, server, now as nat, expires),
                )
                &&& p.1@ == pair_answer(token@, expires)
            },
            Err(f) => text::trimmed(server_url@).len() == 0 && f@ == (
                Status::BadRequest,
                "server_url is required"@,
            ),
        },
        match r {
            Ok(p) => pair_made(
                json::docs(list@),
                server_url@,
                token@,
                json::opt_doc(settings),
                now as nat,
            ) == Ok::<(Seq<Doc>, Doc), (Status, Seq<char>)>((json::docs(p.0@), p.1@)),
            Err(f) => pair_made(
                json::docs(list@),
                server_url@,
                token@,
                json::opt_doc(settings),
                now as nat,
            ) == Err::<(Seq<Doc>, Doc), (Status, Seq<char>)>(f@),
        },
{
    let server = text::trim(server_url);
    if server.as_str().is_empty() {
        return Err(fail(Status::BadRequest, "server_url is required"));
    }
    let kept = prune_expired_pair_tokens(list, now);
    let ttl = scanner_pair_ttl_ms(settings);
    assert(ttl <= 0xffff_ffff_ffff_ffff * 60_000);
    let expires = now + ttl;
    let entry = Json::object().with_text("token", token).with_text(
        "server_url",
        server.as_str(),
    ).with("created_ms", Json::of_u64(cut_to_u64(now))).with(
        "expires_ms",
        Json::of_u64(cut_to_u64(expires)),
    ).with("consumed_device_id", Json::Null);
    let answer = Json::object().with_text("token", token).with(
        "expires_ms",
        Json::of_u64(cut_to_u64(expires)),
    ).with_text(
        "qr_url",
        text::cat3("/api/scanner/pair/", token, "/qr").as_str(),
    ).with_text("status_url", text::cat3("/api/scanner/pair/", token, "/status").as_str());
    Ok((records::add_last(kept, entry), answer))
}

/// Whether an entry is that of a token.
pub open spec fn has_token(entry: Doc, token: Seq<char>) -> bool {
    entry.text_at("token"@) == Some(token)
}

/// The place of a token among some.
pub open spec fn place_of_token(list: Seq<Doc>, token: Seq<char>) -> Option<int> {
    lists::first_at(list, |t: Doc| has_token(t, token))
}

fn find_token(list: &Vec<Json>, token: &str) -> (r: Option<usize>)
    ensures
        match r {
            Some(i) => i < list@.len() && place_of_token(json::docs(list@), token@) == Some(i as int),
            None => place_of_token(json::docs(list@), token@) is None,
        },
{
    let ghost wanted = |t: Doc| has_token(t, token@);
    let ghost all = json::docs(list@);
    let mut i: usize = 0;
    while i < list.len()
        invariant
            i <= list@.len(),
            all == json::docs(list@),
            wanted == (|t: Doc| has_token(t, token@)),
            forall|k: int| 0 <= k < i ==> !wanted(#[trigger] all[k]),
        decreases list@.len() - i,
    {
        assert(all[i as int] == list@[i as int]@);
        let fits = match list[i].text_at("token") {
            Some(s) => text::same(s, token),
            None => false,
        };
        if fits {
            proof {
                lists::lemma_first_at(all, wanted, i as int);
            }
            return Some(i);
        }
        i = i + 1;
    }
    proof {
        lists::lemma_first_nowhere(all, wanted);
    }
    None
}

/// The live entry of a token.
pub open spec fn live_entry(list: Seq<Doc>, token: Seq<char>, now: nat) -> Option<Doc> {
    match place_of_token(live(list, now), token) {
        Some(i) => Some(live(list, now)[i]),
        None => None,
    }
}

/// What the QR code of a token says to the phone.
pub open spec fn pair_payload(server: Seq<char>, token: Seq<char>) -> Doc {
    Doc::object().with("v"@, Doc::num(1)).with("kind"@, Doc::Str("garage-scanner-pair"@)).with(
        "server"@,
        Doc::Str(server),
    ).with("token"@, Doc::Str(token))
}

/// What the QR code of a token says to the phone, where the token is live.
pub fn scanner_pair_payload(list: Vec<Json>, token: &str, now: u128) -> (r: Result<Json, Failure>)
    ensures
        failure::outcome(r) == match live_entry(json::docs(list@), token@, now as nat) {
            Some(e) => Ok(pair_payload(e.text_in("server_url"@), token@)),
            None => Err((Status::NotFound, "unknown or expired token"@)),
        },
        failure::outcome(r) == payload_for(json::docs(list@), token@, now as nat),
{
    let kept = prune_expired_pair_tokens(list, now);
    match find_token(&kept, token) {
        Some(i) => {
            assert(json::docs(kept@)[i as int] == kept@[i as int]@);
            let server = kept[i].text_in("server_url");
            Ok(
                Json::object().with("v", Json::of_u64(1)).with_text(
                    "kind",
                    "garage-scanner-pair",
                ).with_text("server", server.as_str()).with_text("token", token),
            )
        },
        None => Err(fail(Status::NotFound, "unknown or expired token")),
    }
}

/// The drawing of a QR code, given what the attempt gave.
pub open spec fn drawing_from(found: Result<Seq<char>, Seq<char>>) -> Result<
    Seq<char>,
    (Status, Seq<char>),
> {
    match found {
        Ok(svg) => Ok(svg),
        Err(message) => Err((Status::Internal, message)),
    }
}

/// The drawing of a QR code, given what the attempt gave.
pub fn found_drawing(found: Result<String, String>) -> (r: Result<String, Failure>)
    ensures
        failure::text_outcome(r) == drawing_from(outside::text_view(found)),
{
    match found {
        Ok(svg) => Ok(svg),
        Err(message) => Err(fail(Status::Internal, message.as_str())),
    }
}

/// The QR code for some bytes, drawn in SVG, at least 240 wide and high.
pub fn get_scanner_pair_qr(data: &[u8]) -> (r: Result<String, Failure>)
    ensures
        failure::text_outcome(r) == drawing_from(
            outside::qr_drawing(data@, 240, "#111111"@, "#ffffff"@),
        ),
{
    found_drawing(outside::draw_qr(data, 240, "#111111", "#ffffff"))
}

/// How far the pairing with a token has come.
pub open spec fn status_answer(list: Seq<Doc>, devices: Seq<Doc>, token: Seq<char>, now: nat) -> Doc {
    match live_entry(list, token, now) {
        None => Doc::object().with("status"@, Doc::Str("expired"@)),
        Some(e) => match e.text_at("consumed_device_id"@) {
            Some(id) => Doc::object().with("status"@, Doc::Str("paired"@)).with(
                "device"@,
                match records::place_of_id(devices, id) {
                    Some(i) => devices[i],
                    None => Doc::Null,
                },
            ),
            None => Doc::object().with("status"@, Doc::Str("waiting"@)).with(
                "expires_ms"@,
                Doc::num(e.whole_or("expires_ms"@, 0) as int),
            ),
        },
    }
}

pub fn get_scanner_pair_status(list: Vec<Json>, devices: &Vec<Json>, token: &str, now: u128) -> (r: Json)
    ensures
        r@ == status_answer(json::docs(list@), json::docs(devices@), token@, now as nat),
{
    let kept = prune_expired_pair_tokens(list, now);
    let at = match find_token(&kept, token) {
        Some(i) => i,
        None => return Json::object().with_text("status", "expired"),
    };
    assert(json::docs(kept@)[at as int] == kept@[at as int]@);
    if let Some(id) = kept[at].text_at("consumed_device_id") {
        let device = match records::find_id(devices, id) {
            Some(i) => {
                assert(json::docs(devices@)[i as int] == devices@[i as int]@);
                devices[i].clone()
            },
            None => Json::Null,
        };
        return Json::object().with_text("status", "paired").with("device", device);
    }
    Json::object().with_text("status", "waiting").with(
        "expires_ms",
        Json::of_u64(kept[at].whole_or("expires_ms", 0)),
    )
}

/// What a phone says of itself when it is paired.
pub struct Registration {
    pub pair_token: String,
    pub name: String,
    pub platform: String,
    pub app_version: String,
}

/// A text without the space around it, or another where it is empty.
pub open spec fn trimmed_or(s: Seq<char>, other: Seq<char>) -> Seq<char> {
    if text::trimmed(s).len() == 0 {
        other
    } else {
        text::trimmed(s)
    }
}

fn trim_or(s: &str, other: &str) -> (r: String)
    ensures
        r@ == trimmed_or(s@, other@),
{
    let t = text::trim(s);
    if t.as_str().is_empty() {
        other.to_owned()
    } else {
        t
    }
}

/// The record of a device.
pub open spec fn device_record(reg: Registration, id: Seq<char>, token: Seq<char>, now: u64) -> Doc {
    Doc::object().with("id"@, Doc::Str(id)).with(
        "name"@,
        Doc::Str(trimmed_or(reg.name@, "Scanner"@)),
    ).with("device_token"@, Doc::Str(token)).with("created_ms"@, Doc::num(now as int)).with(
        "last_seen_ms"@,
        Doc::num(now as int),
    ).with("platform"@, Doc::Str(trimmed_or(reg.platform@, "unknown"@))).with(
        "app_version"@,
        Doc::Str(text::trimmed(reg.app_version@)),
    )
}

/// Why a phone is not paired; nothing where it is.
pub open spec fn register_refusal(pending: Seq<Doc>, token: Seq<char>, now: nat) -> Option<
    (Status, Seq<char>),
> {
    match live_entry(pending, token, now) {
        None => Some((Status::BadRequest, "pairing token expired or unknown"@)),
        Some(e) => if e.text_at("consumed_device_id"@) is Some {
            Some((Status::Conflict, "pairing token already used"@))
        } else {
            None
        },
    }
}

/// The tokens after a phone was paired by one of them.
pub open spec fn pending_after(pending: Seq<Doc>, token: Seq<char>, id: Seq<char>, now: nat) -> Seq<
    Doc,
> {
    let kept = live(pending, now);
    let i = place_of_token(kept, token)->0;
    kept.update(i, kept[i].with("consumed_device_id"@, Doc::Str(id)))
}

/// The answer to a phone that was paired.
pub open spec fn register_answer(reg: Registration, id: Seq<char>, token: Seq<char>) -> Doc {
    Doc::object().with("device_id"@, Doc::Str(id)).with("device_token"@, Doc::Str(token)).with(
        "name"@,
        Doc::Str(trimmed_or(reg.name@, "Scanner"@)),
    )
}

/// What follows when a phone was paired.
pub struct Registered {
    pub pending: Vec<Json>,
    pub devices: Vec<Json>,
    pub answer: Json,
}

/// A phone asks to be paired by a token.
pub fn register_scanner_device(
    pending: Vec<Json>,
    devices: Vec<Json>,
    reg: &Registration,
    device_id: &str,
    device_token: &str,
    now: u128,
) -> (r: Result<Registered, Failure>)
    ensures
        match r {
            Ok(done) => {
                &&& register_refusal(json::docs(pending@), reg.pair_token@, now as nat) is None
                &&& json::docs(done.pending@) == pending_after(
                    json::docs(pending@),
                    reg.pair_token@,
                    device_id@,
                    now as nat,
                )
                &&& json::docs(done.devices@) == json::docs(devices@).push(
                    device_record(*reg, device_id@, device_token@, low_bits(now as nat)),
                )
                &&& done.answer@ == register_answer(*reg, device_id@, device_token@)
            },
            Err(f) => register_refusal(json::docs(pending@), reg.pair_token@, now as nat) == Some(
                f@,
            ),
        },
        match r {
            Ok(done) => device_registered(
                json::docs(pending@),
                json::docs(devices@),
                *reg,
                device_id@,
                device_token@,
                now as nat,
            ) == Ok::<(Seq<Doc>, Seq<Doc>, Doc), (Status, Seq<char>)>(
                (json::docs(done.pending@), json::docs(done.devices@), done.answer@),
            ),
            Err(f) => device_registered(
                json::docs(pending@),
                json::docs(devices@),
                *reg,
                device_id@,
                device_token@,
                now as nat,
            ) == Err::<(Seq<Doc>, Seq<Doc>, Doc), (Status, Seq<char>)>(f@),
        },
{
    let kept = prune_expired_pair_tokens(pending, now);
    let at = match find_token(&kept, reg.pair_token.as_str()) {
        Some(i) => i,
        None => return Err(fail(Status::BadRequest, "pairing token expired or unknown")),
    };
    assert(json::docs(kept@)[at as int] == kept@[at as int]@);
    if kept[at].text_at("consumed_device_id").is_some() {
        return Err(fail(Status::Conflict, "pairing token already used"));
    }
    let name = trim_or(reg.name.as_str(), "Scanner");
    let platform = trim_or(reg.platform.as_str(), "unknown");
    let version = text::trim(reg.app_version.as_str());
    let moment = cut_to_u64(now);
    let device = Json::object().with_text("id", device_id).with_text("name", name.as_str()).with_text(
        "device_token",
        device_token,
    ).with("created_ms", Json::of_u64(moment)).with("last_seen_ms", Json::of_u64(moment)).with_text(
        "platform",
        platform.as_str(),
    ).with_text("app_version", version.as_str());
    let answer = Json::object().with_text("device_id", device_id).with_text(
        "device_token",
        device_token,
    ).with_text("name", name.as_str());
    let used = kept[at].clone().with_text("consumed_device_id", device_id);
    Ok(
        Registered {
            pending: records::replace_at(kept, at, used),
            devices: records::add_last(devices, device),
            answer,
        },
    )
}

/// The devices as they are shown: without their tokens.
pub open spec fn devices_answer(devices: Seq<Doc>) -> Doc {
    failure::listing(devices.map_values(|d: Doc| d.without("device_token"@)))
}

pub fn list_scanner_devices(devices: &Vec<Json>) -> (r: Json)
    ensures
        r@ == devices_answer(json::docs(devices@)),
{
    let mut out: Vec<Json> = Vec::new();
    let mut i: usize = 0;
    while i < devices.len()
        invariant
            i <= devices@.len(),
            out@.len() == i,
            forall|k: int|
                0 <= k < i ==> (#[trigger] out@[k])@ == devices@[k]@.without("device_token"@),
        decreases devices@.len() - i,
    {
        out.push(devices[i].clone().without("device_token"));
        i = i + 1;
    }
    assert(json::docs(out@) =~= json::docs(devices@).map_values(
        |d: Doc| d.without("device_token"@),
    ));
    failure::list_answer(out)
}

/// The devices without that of an id; it has to be there.
pub open spec fn devices_left(devices: Seq<Doc>, id: Seq<char>) -> Result<
    Seq<Doc>,
    (Status, Seq<char>),
> {
    if records::place_of_id(devices, id) is None {
        Err((Status::NotFound, "device not found"@))
    } else {
        Ok(records::without_id(devices, id))
    }
}

pub fn delete_scanner_device(devices: Vec<Json>, id: &str) -> (r: Result<Vec<Json>, Failure>)
    ensures
        failure::docs_outcome(r) == devices_left(json::docs(devices@), id@),
{
    if records::find_id(&devices, id).is_none() {
        return Err(fail(Status::NotFound, "device not found"));
    }
    Ok(records::drop_id(devices, id))
}

/// The token in an authorization.
pub open spec fn bearer_of(auth: Seq<char>) -> Seq<char> {
    match (text::after_prefix(auth, "Bearer "@), text::after_prefix(auth, "bearer "@)) {
        (Some(rest), _) => text::trimmed(rest),
        (None, Some(rest)) => text::trimmed(rest),
        (None, None) => Seq::<char>::empty(),
    }
}

fn read_bearer(auth: &str) -> (r: String)
    ensures
        r@ == bearer_of(auth@),
{
    if let Some(rest) = text::strip_prefix(auth, "Bearer ") {
        return text::trim(rest.as_str());
    }
    if let Some(rest) = text::strip_prefix(auth, "bearer ") {
        return text::trim(rest.as_str());
    }
    String::new()
}

/// Whether a device has a token.
pub open spec fn holds_token(device: Doc, token: Seq<char>) -> bool {
    device.text_at("device_token"@) == Some(token)
}

/// The place of the device that an authorization names; or why there is none.
pub open spec fn device_for(devices: Seq<Doc>, auth: Seq<char>) -> Result<
    int,
    (Status, Seq<char>),
> {
    let token = bearer_of(auth);
    if token.len() == 0 {
        Err((Status::Unauthorized, "missing bearer token"@))
    } else {
        match lists::first_at(devices, |d: Doc| holds_token(d, token)) {
            Some(i) => Ok(i),
            None => Err((Status::Unauthorized, "invalid device token"@)),
        }
    }
}

/// The device that an authorization names: its place and its id. A request
/// without an authorization is one with an empty one.
pub fn scanner_auth_device(auth: &str, devices: &Vec<Json>) -> (r: Result<
    (usize, String),
    Failure,
>)
    ensures
        match r {
            Ok(p) => p.0 < devices@.len() && device_for(json::docs(devices@), auth@) == Ok::<
                int,
                (Status, Seq<char>),
            >(p.0 as int) && p.1@ == devices@[p.0 as int]@.text_in("id"@),
            Err(f) => device_for(json::docs(devices@), auth@) == Err::<int, (Status, Seq<char>)>(
                f@,
            ),
        },
{
    let token = read_bearer(auth);
    if token.as_str().is_empty() {
        return Err(fail(Status::Unauthorized, "missing bearer token"));
    }
    let ghost all = json::docs(devices@);
    let ghost wanted = |d: Doc| holds_token(d, token@);
    let mut i: usize = 0;
    while i < devices.len()
        invariant
            i <= devices@.len(),
            token@ == bearer_of(auth@),
            token@.len() > 0,
            all == json::docs(devices@),
            wanted == (|d: Doc| holds_token(d, token@)),
            forall|k: int| 0 <= k < i ==> !wanted(#[trigger] all[k]),
        decreases devices@.len() - i,
    {
        assert(all[i as int] == devices@[i as int]@);
        let fits = match devices[i].text_at("device_token") {
            Some(s) => text::same(s, token.as_str()),
            None => false,
        };
        if fits {
            proof {
                lists::lemma_first_at(all, wanted, i as int);
            }
            return Ok((i, devices[i].text_in("id")));
        }
        i = i + 1;
    }
    proof {
        lists::lemma_first_nowhere(all, wanted);
    }
    Err(fail(Status::Unauthorized, "invalid device token"))
}

/// A device calls: the devices with the time at which it was last seen, and
/// its id.
pub fn see_scanner_device(auth: &str, devices: Vec<Json>, now: u64) -> (r: Result<
    (Vec<Json>, String),
    Failure,
>)
    ensures
        match (r, device_for(json::docs(devices@), auth@)) {
            (Ok(p), Ok(i)) => json::docs(p.0@) == json::docs(devices@).update(
                i,
                json::docs(devices@)[i].with("last_seen_ms"@, Doc::num(now as int)),
            ) && p.1@ == json::docs(devices@)[i].text_in("id"@),
            (Err(f), Err(e)) => f@ == e,
            _ => false,
        },
        match r {
            Ok(p) => devices_seen(json::docs(devices@), auth@, now) == Ok::<
                (Seq<Doc>, Seq<char>),
                (Status, Seq<char>),
            >((json::docs(p.0@), p.1@)),
            Err(f) => devices_seen(json::docs(devices@), auth@, now) == Err::<
                (Seq<Doc>, Seq<char>),
                (Status, Seq<char>),
            >(f@),
        },
{
    match scanner_auth_device(auth, &devices) {
        Ok((at, id)) => {
            let seen = devices[at].clone().with("last_seen_ms", Json::of_u64(now));
            Ok((records::replace_at(devices, at, seen), id))
        },
        Err(f) => Err(f),
    }
}

/// What a device sends: a list of scans, and perhaps one more beside it. How
/// sure the device is of that one stands as it came, or is null.
pub struct ScanBody {
    pub scans: Vec<Json>,
    pub code: Option<String>,
    pub kind: Option<String>,
    pub confidence: Json,
    pub raw_text: Option<String>,
    pub scanned_ms: Option<u64>,
}

/// The scan that stands beside the list.
pub open spec fn single_scan(body: ScanBody, now: u64) -> Doc {
    Doc::object().with("code"@, Doc::maybe_text(text::opt_text(body.code))).with(
        "type"@,
        Doc::Str(
            match body.kind {
                Some(k) => k@,
                None => Seq::<char>::empty(),
            },
        ),
    ).with("confidence"@, body.confidence@).with(
        "raw_text"@,
        Doc::maybe_text(text::opt_text(body.raw_text)),
    ).with(
        "scanned_ms"@,
        Doc::num(
            match body.scanned_ms {
                Some(n) => n as int,
                None => now as int,
            },
        ),
    )
}

/// The scans that were sent; the one beside the list counts where it has a
/// code.
pub open spec fn incoming_of(body: ScanBody, now: u64) -> Seq<Doc> {
    let list = json::docs(body.scans@);
    match body.code {
        Some(c) if text::trimmed(c@).len() > 0 => list.push(single_scan(body, now)),
        _ => list,
    }
}

fn text_or_null(o: &Option<String>) -> (r: Json)
    ensures
        r@ == Doc::maybe_text(text::opt_text(*o)),
{
    match o {
        Some(s) => Json::of_text(s.as_str()),
        None => Json::Null,
    }
}

fn make_single(body: &ScanBody, now: u64) -> (r: Json)
    ensures
        r@ == single_scan(*body, now),
{
    let kind = match &body.kind {
        Some(k) => k.clone(),
        None => String::new(),
    };
    assert(body.kind is None ==> kind@ =~= Seq::<char>::empty());
    let scanned: u64 = match body.scanned_ms {
        Some(n) => n,
        None => now,
    };
    Json::object().with("code", text_or_null(&body.code)).with_text("type", kind.as_str()).with(
        "confidence",
        body.confidence.clone(),
    ).with("raw_text", text_or_null(&body.raw_text)).with("scanned_ms", Json::of_u64(scanned))
}

/// The scans that were sent; there has to be one.
pub fn incoming_scans(body: &ScanBody, now: u64) -> (r: Result<Vec<Json>, Failure>)
    ensures
        failure::docs_outcome(r) == if incoming_of(*body, now).len() == 0 {
            Err((Status::BadRequest, "no scans in body"@))
        } else {
            Ok(incoming_of(*body, now))
        },
        failure::docs_outcome(r) == scans_taken(*body, now),
{
    let list = json::clone_all(&body.scans);
    let named = match &body.code {
        Some(c) => !text::trim(c.as_str()).as_str().is_empty(),
        None => false,
    };
    let incoming = if named {
        records::add_last(list, make_single(body, now))
    } else {
        list
    };
    assert(json::docs(incoming@).len() == incoming@.len());
    if incoming.len() == 0 {
        return Err(fail(Status::BadRequest, "no scans in body"));
    }
    Ok(incoming)
}

/// The record of a scan.
pub open spec fn scan_record(
    item: Doc,
    id: Seq<char>,
    device_id: Seq<char>,
    now: u64,
) -> Doc {
    Doc::object().with("id"@, Doc::Str(id)).with("device_id"@, Doc::Str(device_id)).with(
        "code"@,
        Doc::Str(text::trimmed(item.text_in("code"@))),
    ).with("type"@, Doc::Str(item.text_in("type"@))).with(
        "confidence"@,
        crate::autofill::doc_or_null(item.get("confidence"@)),
    ).with("raw_text"@, crate::autofill::doc_or_null(item.get("raw_text"@))).with(
        "scanned_ms"@,
        Doc::num(item.whole_or("scanned_ms"@, now) as int),
    ).with("received_ms"@, Doc::num(now as int)).with("dismissed"@, Doc::Bool(false))
}

/// Whether a scan has a code; one without is left out.
pub open spec fn has_code(item: Doc) -> bool {
    text::trimmed(item.text_in("code"@)).len() > 0
}

/// The records of the first `n` of some scans, each with the id at its place.
pub open spec fn scan_records(
    incoming: Seq<Doc>,
    ids: Seq<Seq<char>>,
    device_id: Seq<char>,
    now: u64,
    n: nat,
) -> Seq<Doc>
    decreases n,
{
    if n == 0 {
        Seq::<Doc>::empty()
    } else {
        let before = scan_records(incoming, ids, device_id, now, (n - 1) as nat);
        if has_code(incoming[n - 1]) {
            before.push(scan_record(incoming[n - 1], ids[n - 1], device_id, now))
        } else {
            before
        }
    }
}

fn copy_or_null(o: Option<&Json>) -> (r: Json)
    ensures
        r@ == crate::autofill::doc_or_null(json::opt_doc(o)),
{
    match o {
        Some(j) => j.clone(),
        None => Json::Null,
    }
}

fn make_record(item: &Json, code: &str, id: &str, device_id: &str, now: u64) -> (r: Json)
    requires
        code@ == text::trimmed(item@.text_in("code"@)),
    ensures
        r@ == scan_record(item@, id@, device_id@, now),
{
    Json::object().with_text("id", id).with_text("device_id", device_id).with_text(
        "code",
        code,
    ).with_text("type", item.text_in("type").as_str()).with(
        "confidence",
        copy_or_null(item.get("confidence")),
    ).with("raw_text", copy_or_null(item.get("raw_text"))).with(
        "scanned_ms",
        Json::of_u64(item.whole_or("scanned_ms", now)),
    ).with("received_ms", Json::of_u64(now)).with("dismissed", Json::Bool(false))
}

/// The answer to scans that were stored.
pub open spec fn scans_stored(saved: Seq<Doc>) -> Doc {
    failure::done().with("count"@, Doc::num(saved.len() as int)).with("items"@, Doc::Array(saved))
}

/// The scans with those that were sent, and the answer to them. Each that is
/// sent has an id, which is not used where it is left out.
pub fn post_scanner_scan(
    scans: Vec<Json>,
    incoming: &Vec<Json>,
    ids: &Vec<String>,
    device_id: &str,
    now: u64,
) -> (r: (Vec<Json>, Json))
    requires
        incoming@.len() == ids@.len(),
    ensures
        ({
            let saved = scan_records(
                json::docs(incoming@),
                text::texts(ids@),
                device_id@,
                now,
                incoming@.len(),
            );
            json::docs(r.0@) == json::docs(scans@) + saved && r.1@ == scans_stored(saved)
        }),
        (json::docs(r.0@), r.1@) == scans_posted(
            json::docs(scans@),
            json::docs(incoming@),
            text::texts(ids@),
            device_id@,
            now,
        ),
{
    let ghost all = json::docs(incoming@);
    let ghost names = text::texts(ids@);
    let ghost start = json::docs(scans@);
    let mut out = scans;
    let mut saved: Vec<Json> = Vec::new();
    let mut i: usize = 0;
    assert(json::docs(saved@) =~= Seq::<Doc>::empty());
    assert(start =~= start + Seq::<Doc>::empty());
    while i < incoming.len()
        invariant
            i <= incoming@.len(),
            incoming@.len() == ids@.len(),
            all == json::docs(incoming@),
            names == text::texts(ids@),
            json::docs(saved@) == scan_records(all, names, device_id@, now, i as nat),
            json::docs(out@) == start + json::docs(saved@),
        decreases incoming@.len() - i,
    {
        assert(all[i as int] == incoming@[i as int]@);
        assert(names[i as int] == ids@[i as int]@);
        let code = text::trim(incoming[i].text_in("code").as_str());
        if !code.as_str().is_empty() {
            let ghost out0 = out@;
            let ghost saved0 = saved@;
            let record = make_record(
                &incoming[i],
                code.as_str(),
                ids[i].as_str(),
                device_id,
                now,
            );
            let copy = record.clone();
            out.push(copy);
            saved.push(record);
            assert(json::docs(out@) =~= json::docs(out0).push(copy@));
            assert(json::docs(saved@) =~= json::docs(saved0).push(record@));
            assert(json::docs(out@) =~= start + json::docs(saved@));
        }
        i = i + 1;
    }
    let count = saved.len() as u64;
    let answer = failure::ok_answer().with("count", Json::of_u64(count)).with(
        "items",
        Json::list(saved),
    );
    (out, answer)
}

/// Whether a scan is among those that are asked for.
pub open spec fn scan_asked(scan: Doc, since: Option<u64>, pending: bool) -> bool {
    &&& match since {
        Some(n) => scan.whole_or("received_ms"@, 0) > n,
        None => true,
    }
    &&& pending ==> !scan.flag_at("dismissed"@)
}

/// The first items of a list, as many as are asked for.
pub open spec fn at_most(s: Seq<Doc>, limit: Option<usize>) -> Seq<Doc> {
    match limit {
        Some(n) if n < s.len() => s.take(n as int),
        _ => s,
    }
}

/// The scans that are asked for, the latest first.
pub open spec fn scans_answer(
    scans: Seq<Doc>,
    since: Option<u64>,
    pending: bool,
    limit: Option<usize>,
) -> Doc {
    failure::listing(
        at_most(
            order::ranked(
                scans.filter(|s: Doc| scan_asked(s, since, pending)),
                order::newest_first("received_ms"@),
            ),
            limit,
        ),
    )
}

fn keep_asked(scans: &Vec<Json>, since: Option<u64>, pending: bool) -> (r: Vec<Json>)
    ensures
        json::docs(r@) == json::docs(scans@).filter(|s: Doc| scan_asked(s, since, pending)),
{
    let ghost all = json::docs(scans@);
    let ghost keep = |s: Doc| scan_asked(s, since, pending);
    let mut out: Vec<Json> = Vec::new();
    let mut i: usize = 0;
    proof {
        lists::lemma_filter_none(keep);
        assert(all.take(0) =~= Seq::<Doc>::empty());
        assert(json::docs(out@) =~= Seq::<Doc>::empty());
    }
    while i < scans.len()
        invariant
            i <= scans@.len(),
            all == json::docs(scans@),
            keep == (|s: Doc| scan_asked(s, since, pending)),
            json::docs(out@) == all.take(i as int).filter(keep),
        decreases scans@.len() - i,
    {
        proof {
            lists::lemma_filter_step(all, i as int, keep);
            assert(all[i as int] == scans@[i as int]@);
        }
        let newer = match since {
            Some(n) => scans[i].whole_or("received_ms", 0) > n,
            None => true,
        };
        if newer && !(pending && scans[i].flag_at("dismissed")) {
            let ghost before = out@;
            let copy = scans[i].clone();
            out.push(copy);
            assert(json::docs(out@) =~= json::docs(before).push(copy@));
        }
        i = i + 1;
    }
    assert(all.take(i as int) =~= all);
    out
}

fn cut_list(v: Vec<Json>, limit: Option<usize>) -> (r: Vec<Json>)
    ensures
        json::docs(r@) == at_most(json::docs(v@), limit),
{
    let mut out = v;
    if let Some(n) = limit {
        if n < out.len() {
            out.truncate(n);
            assert(json::docs(out@) =~= json::docs(v@).take(n as int));
        }
    }
    out
}

/// The scans that are asked for.
pub fn list_scanner_scans(
    scans: &Vec<Json>,
    since: Option<u64>,
    pending: Option<bool>,
    limit: Option<usize>,
) -> (r: Json)
    ensures
        r@ == scans_answer(json::docs(scans@), since, pending == Some(true), limit),
{
    let open = match pending {
        Some(b) => b,
        None => false,
    };
    let kept = keep_asked(scans, since, open);
    failure::list_answer(cut_list(order::sort_newest_first(kept, "received_ms"), limit))
}

proof fn lemma_live_entry(list: Seq<Doc>, token: Seq<char>, now: nat)
    ensures
        match live_entry(list, token, now) {
            Some(e) => list.contains(e) && is_live(e, now) && has_token(e, token),
            None => forall|i: int|
                0 <= i < list.len() ==> !(is_live(#[trigger] list[i], now) && has_token(
                    list[i],
                    token,
                )),
        },
{
    let keep = |t: Doc| is_live(t, now);
    let wanted = |t: Doc| has_token(t, token);
    let kept = live(list, now);
    lists::lemma_first_found(kept, wanted);
    match place_of_token(kept, token) {
        Some(i) => {
            assert(kept.contains(kept[i]));
            lists::lemma_filter_holds(list, keep, kept[i]);
            assert(keep(kept[i]) && wanted(kept[i]));
        },
        None => {
            assert forall|i: int| 0 <= i < list.len() implies !(is_live(#[trigger] list[i], now)
                && has_token(list[i], token)) by {
                if is_live(list[i], now) && has_token(list[i], token) {
                    assert(list.contains(list[i]));
                    lists::lemma_filter_holds(list, keep, list[i]);
                    assert(keep(list[i]));
                    let k = choose|k: int| 0 <= k < kept.len() && kept[k] == list[i];
                    assert(!wanted(kept[k]));
                }
            }
        },
    }
}

/// A token is of no use once it has expired: its pairing has the status
/// expired, and a phone that comes with it is refused.
pub proof fn law_expired_is_refused(list: Seq<Doc>, devices: Seq<Doc>, token: Seq<char>, now: nat)
    requires
        forall|i: int|
            0 <= i < list.len() && has_token(#[trigger] list[i], token) ==> !is_live(list[i], now),
    ensures
        register_refusal(list, token, now) == Some(
            (Status::BadRequest, "pairing token expired or unknown"@),
        ),
        status_answer(list, devices, token, now) == Doc::object().with(
            "status"@,
            Doc::Str("expired"@),
        ),
{
    lemma_live_entry(list, token, now);
    if let Some(e) = live_entry(list, token, now) {
        let i = choose|i: int| 0 <= i < list.len() && list[i] == e;
        assert(has_token(list[i], token));
    }
}

/// The entry of a token after a phone was paired by it.
pub open spec fn used_entry(pending: Seq<Doc>, token: Seq<char>, id: Seq<char>, now: nat) -> Doc {
    pending_after(pending, token, id, now)[place_of_token(live(pending, now), token)->0]
}

/// A token pairs one phone: after it did, whoever comes with it while it is
/// live is told that it was used. Where no two pending tokens are the same,
/// whoever comes once it has expired is told that.
pub proof fn law_token_pairs_once(
    pending: Seq<Doc>,
    token: Seq<char>,
    id: Seq<char>,
    now: nat,
    later: nat,
)
    requires
        register_refusal(pending, token, now) is None,
    ensures
        is_live(used_entry(pending, token, id, now), later) ==> register_refusal(
            pending_after(pending, token, id, now),
            token,
            later,
        ) == Some((Status::Conflict, "pairing token already used"@)),
        !is_live(used_entry(pending, token, id, now), later) && (forall|i: int, j: int|
            0 <= i < j < live(pending, now).len() && has_token(
                #[trigger] live(pending, now)[i],
                token,
            ) ==> !has_token(#[trigger] live(pending, now)[j], token)) ==> register_refusal(
            pending_after(pending, token, id, now),
            token,
            later,
        ) == Some((Status::BadRequest, "pairing token expired or unknown"@)),
{
    reveal_strlit("token");
    reveal_strlit("consumed_device_id");
    assert("token"@.len() == 5 && "consumed_device_id"@.len() == 18);
    let kept = live(pending, now);
    let wanted = |t: Doc| has_token(t, token);
    lists::lemma_first_found(kept, wanted);
    let at = place_of_token(kept, token)->0;
    assert(wanted(kept[at]));
    let after = pending_after(pending, token, id, now);
    let used = used_entry(pending, token, id, now);
    assert(used == kept[at].with("consumed_device_id"@, Doc::Str(id)));
    assert(has_token(used, token));
    if is_live(used, later) {
        assert forall|k: int| 0 <= k < at implies !has_token(#[trigger] after[k], token) by {
            assert(after[k] == kept[k]);
            assert(!wanted(kept[k]));
        }
        lemma_first_live_entry(after, token, later, at);
    } else {
        lemma_live_entry(after, token, later);
        if let Some(e) = live_entry(after, token, later) {
            let i = choose|i: int| 0 <= i < after.len() && after[i] == e;
            assert(after[i] == kept[i]);
            assert(has_token(kept[i], token) && has_token(kept[at], token));
        }
    }
}

/// The first entry of a token is found, where it is live.
proof fn lemma_first_live_entry(list: Seq<Doc>, token: Seq<char>, now: nat, at: int)
    requires
        0 <= at < list.len(),
        is_live(list[at], now),
        has_token(list[at], token),
        forall|k: int| 0 <= k < at ==> !has_token(#[trigger] list[k], token),
    ensures
        live_entry(list, token, now) == Some(list[at]),
    decreases list.len(),
{
    let keep = |t: Doc| is_live(t, now);
    let wanted = |t: Doc| has_token(t, token);
    let front = list.drop_last();
    assert(list =~= front.push(list.last()));
    lists::lemma_filter_push(front, list.last(), keep);
    let before = live(front, now);
    let all = live(list, now);
    if at < front.len() {
        assert forall|k: int| 0 <= k < at implies !has_token(#[trigger] front[k], token) by {
            assert(front[k] == list[k]);
        }
        lemma_first_live_entry(front, token, now, at);
        lists::lemma_first_found(before, wanted);
        let i = place_of_token(before, token)->0;
        assert forall|k: int| 0 <= k < i implies !wanted(#[trigger] all[k]) by {
            assert(all[k] == before[k]);
        }
        assert(all[i] == before[i]);
        lists::lemma_first_at(all, wanted, i);
    } else {
        assert(keep(list.last()));
        assert forall|k: int| 0 <= k < before.len() implies !wanted(#[trigger] before[k]) by {
            assert(before.contains(before[k]));
            lists::lemma_filter_holds(front, keep, before[k]);
            let m = choose|m: int| 0 <= m < front.len() && front[m] == before[k];
            assert(!has_token(list[m], token));
        }
        assert forall|k: int| 0 <= k < before.len() implies !wanted(#[trigger] all[k]) by {
            assert(all[k] == before[k]);
        }
        lists::lemma_first_at(all, wanted, before.len() as int);
    }
}

/// While a token is live and no phone came with it, its pairing waits; after
/// a phone was paired by it, the pairing shows that device.
pub proof fn law_pairing_is_seen(
    pending: Seq<Doc>,
    devices: Seq<Doc>,
    reg: Registration,
    id: Seq<char>,
    device_token: Seq<char>,
    now: nat,
)
    requires
        register_refusal(pending, reg.pair_token@, now) is None,
        records::place_of_id(devices, id) is None,
    ensures
        status_answer(pending, devices, reg.pair_token@, now).text_at("status"@) == Some(
            "waiting"@,
        ),
        status_answer(
            pending_after(pending, reg.pair_token@, id, now),
            devices.push(device_record(reg, id, device_token, low_bits(now))),
            reg.pair_token@,
            now,
        ) == Doc::object().with("status"@, Doc::Str("paired"@)).with(
            "device"@,
            device_record(reg, id, device_token, low_bits(now)),
        ),
{
    let token = reg.pair_token@;
    reveal_strlit("status");
    reveal_strlit("expires_ms");
    reveal_strlit("token");
    reveal_strlit("consumed_device_id");
    assert("status"@.len() == 6 && "expires_ms"@.len() == 10);
    assert("token"@.len() == 5 && "consumed_device_id"@.len() == 18);
    let kept = live(pending, now);
    let wanted = |t: Doc| has_token(t, token);
    let keep = |t: Doc| is_live(t, now);
    lists::lemma_first_found(kept, wanted);
    let at = place_of_token(kept, token)->0;
    let used = kept[at].with("consumed_device_id"@, Doc::Str(id));
    let after = pending_after(pending, token, id, now);
    assert forall|i: int| 0 <= i < after.len() implies keep(#[trigger] after[i]) by {
        assert(kept.contains(kept[i]));
        lists::lemma_filter_holds(pending, keep, kept[i]);
        assert(keep(kept[i]));
    }
    lists::lemma_filter_all(after, keep);
    assert(wanted(kept[at]));
    assert(wanted(after[at]));
    assert forall|k: int| 0 <= k < at implies !wanted(#[trigger] after[k]) by {
        assert(after[k] == kept[k]);
    }
    lists::lemma_first_at(after, wanted, at);
    assert(live_entry(after, token, now) == Some(used));
    let d = device_record(reg, id, device_token, low_bits(now));
    lemma_device_record(reg, id, device_token, low_bits(now));
    let all = devices.push(d);
    assert(all.drop_last() =~= devices);
    assert(all.last() == d);
}

proof fn lemma_device_record(reg: Registration, id: Seq<char>, token: Seq<char>, now: u64)
    ensures
        device_record(reg, id, token, now).text_at("id"@) == Some(id),
        device_record(reg, id, token, now).text_at("device_token"@) == Some(token),
{
    reveal_strlit("id");
    reveal_strlit("name");
    reveal_strlit("device_token");
    reveal_strlit("created_ms");
    reveal_strlit("last_seen_ms");
    reveal_strlit("platform");
    reveal_strlit("app_version");
    assert("id"@.len() == 2 && "name"@.len() == 4 && "device_token"@.len() == 12);
    assert("created_ms"@.len() == 10 && "last_seen_ms"@.len() == 12 && "platform"@.len() == 8);
    assert("app_version"@.len() == 11 && "device_token"@[0] != "last_seen_ms"@[0]);
}

/// A device that was paired is let in with the token that it was given, and
/// no other is let in by it. The token has to be new.
pub proof fn law_paired_device_is_let_in(
    devices: Seq<Doc>,
    reg: Registration,
    id: Seq<char>,
    seed: Seed,
    now: u64,
)
    requires
        forall|i: int|
            0 <= i < devices.len() ==> !holds_token(#[trigger] devices[i], token_of(seed)),
    ensures
        device_for(
            devices.push(device_record(reg, id, token_of(seed), now)),
            "Bearer "@ + token_of(seed),
        ) == Ok::<int, (Status, Seq<char>)>(devices.len() as int),
        device_for(devices, "Bearer "@ + token_of(seed)) == Err::<int, (Status, Seq<char>)>(
            (Status::Unauthorized, "invalid device token"@),
        ),
{
    let token = token_of(seed);
    let auth = "Bearer "@ + token;
    let d = device_record(reg, id, token, now);
    law_token_shape(seed);
    lemma_device_record(reg, id, token, now);
    let n = "Bearer "@.len() as int;
    assert(auth.take(n) =~= "Bearer "@);
    assert(auth.skip(n) =~= token);
    assert(bearer_of(auth) == token);
    let wanted = |d: Doc| holds_token(d, token);
    let all = devices.push(d);
    assert forall|k: int| 0 <= k < devices.len() implies !wanted(#[trigger] all[k]) by {
        assert(all[k] == devices[k]);
        assert(!holds_token(devices[k], token));
    }
    assert(wanted(all[devices.len() as int]));
    lists::lemma_first_at(all, wanted, devices.len() as int);
    lists::lemma_first_nowhere(devices, wanted);
}

/// After a device was deleted, no authorization lets a device of that id in.
pub proof fn law_deleted_device_is_locked_out(devices: Seq<Doc>, id: Seq<char>, auth: Seq<char>)
    requires
        id.len() > 0,
    ensures
        devices_left(devices, id) matches Ok(left) ==> (device_for(left, auth) matches Ok(i) ==> 0
            <= i < left.len() && left[i].text_in("id"@) != id),
{
    let left = records::without_id(devices, id);
    let token = bearer_of(auth);
    let keep = |d: Doc| !records::has_id(d, id);
    if let Ok(i) = device_for(left, auth) {
        lists::lemma_first_found(left, |d: Doc| holds_token(d, token));
        assert(left.contains(left[i]));
        lists::lemma_filter_holds(devices, keep, left[i]);
        assert(keep(left[i]));
    }
}

/// A request without a token, or with one that no device has, is refused as
/// unauthorized.
pub proof fn law_stranger_is_refused(devices: Seq<Doc>, auth: Seq<char>)
    ensures
        device_for(devices, auth) is Ok <==> bearer_of(auth).len() > 0 && exists|i: int|
            0 <= i < devices.len() && holds_token(#[trigger] devices[i], bearer_of(auth)),
        device_for(devices, auth) matches Err(e) ==> e.0 == Status::Unauthorized,
{
    let token = bearer_of(auth);
    let wanted = |d: Doc| holds_token(d, token);
    lists::lemma_first_found(devices, wanted);
    if let Some(i) = lists::first_at(devices, wanted) {
        assert(wanted(devices[i]));
        assert(holds_token(devices[i], token));
    } else {
        assert forall|i: int| 0 <= i < devices.len() implies !holds_token(
            #[trigger] devices[i],
            token,
        ) by {
            assert(!wanted(devices[i]));
        }
    }
}

/// No device shows its token in the list.
pub proof fn law_tokens_are_hidden(devices: Seq<Doc>, i: int)
    requires
        0 <= i < devices.len(),
    ensures
        devices_answer(devices).items_at("items"@) matches Some(shown) && shown.len()
            == devices.len() && !shown[i].has("device_token"@),
{
}

/// Every scan with a code is stored, and nothing else is.
pub proof fn law_scans_accounted(
    incoming: Seq<Doc>,
    ids: Seq<Seq<char>>,
    device_id: Seq<char>,
    now: u64,
    n: nat,
)
    requires
        n <= incoming.len(),
    ensures
        scan_records(incoming, ids, device_id, now, n).len() == incoming.take(n as int).filter(
            |i: Doc| has_code(i),
        ).len(),
    decreases n,
{
    let keep = |i: Doc| has_code(i);
    if n == 0 {
        assert(incoming.take(0) =~= Seq::<Doc>::empty());
        lists::lemma_filter_none(keep);
    } else {
        law_scans_accounted(incoming, ids, device_id, now, (n - 1) as nat);
        lists::lemma_filter_step(incoming, n - 1, keep);
    }
}

/// A scan that was stored is listed for everyone who asks for scans from
/// before it came, also where only open ones are asked for.
pub proof fn law_stored_scan_is_asked(
    item: Doc,
    id: Seq<char>,
    device_id: Seq<char>,
    now: u64,
    since: u64,
    pending: bool,
)
    requires
        since < now,
    ensures
        scan_asked(scan_record(item, id, device_id, now), Some(since), pending),
        scan_asked(scan_record(item, id, device_id, now), None, pending),
{
    reveal_strlit("received_ms");
    reveal_strlit("dismissed");
    assert("received_ms"@.len() == 11 && "dismissed"@.len() == 9);
}

/// No two of these names are the same.
proof fn lemma_scanner_names()
    ensures
        "token"@.len() == 5,
        "server_url"@.len() == 10,
        "created_ms"@.len() == 10,
        "expires_ms"@.len() == 10,
        "consumed_device_id"@.len() == 18,
        "qr_url"@.len() == 6,
        "status_url"@.len() == 10,
        "v"@.len() == 1,
        "kind"@.len() == 4,
        "server"@.len() == 6,
        "status"@.len() == 6,
        "device"@.len() == 6,
        "id"@.len() == 2,
        "name"@.len() == 4,
        "device_token"@.len() == 12,
        "last_seen_ms"@.len() == 12,
        "platform"@.len() == 8,
        "app_version"@.len() == 11,
        "device_id"@.len() == 9,
        "code"@.len() == 4,
        "type"@.len() == 4,
        "confidence"@.len() == 10,
        "raw_text"@.len() == 8,
        "scanned_ms"@.len() == 10,
        "received_ms"@.len() == 11,
        "dismissed"@.len() == 9,
        "ok"@.len() == 2,
        "count"@.len() == 5,
        "items"@.len() == 5,
        "token"@ != "count"@,
        "token"@ != "items"@,
        "server_url"@ != "created_ms"@,
        "server_url"@ != "expires_ms"@,
        "server_url"@ != "status_url"@,
        "server_url"@ != "confidence"@,
        "server_url"@ != "scanned_ms"@,
        "created_ms"@ != "expires_ms"@,
        "created_ms"@ != "status_url"@,
        "created_ms"@ != "confidence"@,
        "created_ms"@ != "scanned_ms"@,
        "expires_ms"@ != "status_url"@,
        "expires_ms"@ != "confidence"@,
        "expires_ms"@ != "scanned_ms"@,
        "qr_url"@ != "server"@,
        "qr_url"@ != "status"@,
        "qr_url"@ != "device"@,
        "status_url"@ != "confidence"@,
        "status_url"@ != "scanned_ms"@,
        "kind"@ != "name"@,
        "kind"@ != "code"@,
        "kind"@ != "type"@,
        "server"@ != "status"@,
        "server"@ != "device"@,
        "status"@ != "device"@,
        "id"@ != "ok"@,
        "name"@ != "code"@,
        "name"@ != "type"@,
        "device_token"@ != "last_seen_ms"@,
        "platform"@ != "raw_text"@,
        "app_version"@ != "received_ms"@,
        "device_id"@ != "dismissed"@,
        "code"@ != "type"@,
        "confidence"@ != "scanned_ms"@,
        "count"@ != "items"@,
{
    reveal_strlit("token");
    reveal_strlit("server_url");
    reveal_strlit("created_ms");
    reveal_strlit("expires_ms");
    reveal_strlit("consumed_device_id");
    reveal_strlit("qr_url");
    reveal_strlit("status_url");
    reveal_strlit("v");
    reveal_strlit("kind");
    reveal_strlit("server");
    reveal_strlit("status");
    reveal_strlit("device");
    reveal_strlit("id");
    reveal_strlit("name");
    reveal_strlit("device_token");
    reveal_strlit("last_seen_ms");
    reveal_strlit("platform");
    reveal_strlit("app_version");
    reveal_strlit("device_id");
    reveal_strlit("code");
    reveal_strlit("type");
    reveal_strlit("confidence");
    reveal_strlit("raw_text");
    reveal_strlit("scanned_ms");
    reveal_strlit("received_ms");
    reveal_strlit("dismissed");
    reveal_strlit("ok");
    reveal_strlit("count");
    reveal_strlit("items");
    assert("token"@[0] != "count"@[0]);
    assert("token"@[0] != "items"@[0]);
    assert("server_url"@[0] != "created_ms"@[0]);
    assert("server_url"@[0] != "expires_ms"@[0]);
    assert("server_url"@[1] != "status_url"@[1]);
    assert("server_url"@[0] != "confidence"@[0]);
    assert("server_url"@[1] != "scanned_ms"@[1]);
    assert("created_ms"@[0] != "expires_ms"@[0]);
    assert("created_ms"@[0] != "status_url"@[0]);
    assert("created_ms"@[1] != "confidence"@[1]);
    assert("created_ms"@[0] != "scanned_ms"@[0]);
    assert("expires_ms"@[0] != "status_url"@[0]);
    assert("expires_ms"@[0] != "confidence"@[0]);
    assert("expires_ms"@[0] != "scanned_ms"@[0]);
    assert("qr_url"@[0] != "server"@[0]);
    assert("qr_url"@[0] != "status"@[0]);
    assert("qr_url"@[0] != "device"@[0]);
    assert("status_url"@[0] != "confidence"@[0]);
    assert("status_url"@[1] != "scanned_ms"@[1]);
    assert("kind"@[0] != "name"@[0]);
    assert("kind"@[0] != "code"@[0]);
    assert("kind"@[0] != "type"@[0]);
    assert("server"@[1] != "status"@[1]);
    assert("server"@[0] != "device"@[0]);
    assert("status"@[0] != "device"@[0]);
    assert("id"@[0] != "ok"@[0]);
    assert("name"@[0] != "code"@[0]);
    assert("name"@[0] != "type"@[0]);
    assert("device_token"@[0] != "last_seen_ms"@[0]);
    assert("platform"@[0] != "raw_text"@[0]);
    assert("app_version"@[0] != "received_ms"@[0]);
    assert("device_id"@[1] != "dismissed"@[1]);
    assert("code"@[0] != "type"@[0]);
    assert("confidence"@[0] != "scanned_ms"@[0]);
    assert("count"@[0] != "items"@[0]);
}

proof fn lemma_wraps(a: u64, b: u64)
    ensures
        a.wrapping_add(b) as int == (a as int + b as int) % 0x1_0000_0000_0000_0000,
        a.wrapping_mul(b) as int == (a as int * b as int) % 0x1_0000_0000_0000_0000,
{
}

/// The first state of a token is made from the time, how many came before, and
/// the process: a product and a sum, times a fixed odd number, cut to 64 bits.
pub proof fn law_first_state(seed: Seed)
    ensures
        first_state(seed) as int == ((seed.time_ns as int * (seed.counter as int + 1)
            + seed.pid as int) * 11400714819323198485) % 0x1_0000_0000_0000_0000,
{
    let m = 0x1_0000_0000_0000_0000int;
    let k = 0x9E37_79B9_7F4A_7C15u64;
    let c = seed.counter.wrapping_add(1);
    let p = seed.time_ns.wrapping_mul(c);
    let s = p.wrapping_add(seed.pid as u64);
    lemma_wraps(seed.counter, 1);
    lemma_wraps(seed.time_ns, c);
    lemma_wraps(p, seed.pid as u64);
    lemma_wraps(s, k);
    let t = seed.time_ns as int;
    let n = seed.counter as int + 1;
    let d = seed.pid as int;
    vstd::arithmetic::div_mod::lemma_mul_mod_noop_right(t, n, m);
    assert(p as int == (t * n) % m);
    vstd::arithmetic::div_mod::lemma_add_mod_noop(t * n, d, m);
    vstd::arithmetic::div_mod::lemma_add_mod_noop((t * n) % m, d, m);
    vstd::arithmetic::div_mod::lemma_mod_twice(t * n, m);
    assert(s as int == (t * n + d) % m);
    vstd::arithmetic::div_mod::lemma_mul_mod_noop_left(t * n + d, k as int, m);
}

/// One step from state to state, bit by bit: three times a bit is turned over
/// where the bit some places from it is set, 13 up, 7 down and 17 up.
pub proof fn law_next_state(s: u64, i: u64) -> (r: (u64, u64))
    requires
        i < 64,
    ensures
        (r.0 >> i) & 1 == ((s >> i) & 1) ^ if i >= 13 {
            (s >> ((i - 13) as u64)) & 1
        } else {
            0
        },
        (r.1 >> i) & 1 == ((r.0 >> i) & 1) ^ if i + 7 < 64 {
            (r.0 >> ((i + 7) as u64)) & 1
        } else {
            0
        },
        (next_state(s) >> i) & 1 == ((r.1 >> i) & 1) ^ if i >= 17 {
            (r.1 >> ((i - 17) as u64)) & 1
        } else {
            0
        },
{
    let a = s ^ (s << 13u64);
    let b = a ^ (a >> 7u64);
    let c = b ^ (b << 17u64);
    if i >= 13 {
        let j = (i - 13) as u64;
        assert((a >> i) & 1 == ((s >> i) & 1) ^ ((s >> j) & 1)) by (bit_vector)
            requires
                a == s ^ (s << 13u64),
                i < 64,
                i >= 13,
                j == i - 13,
        ;
    } else {
        assert((a >> i) & 1 == ((s >> i) & 1) ^ 0) by (bit_vector)
            requires
                a == s ^ (s << 13u64),
                i < 13,
        ;
    }
    if i + 7 < 64 {
        let j = (i + 7) as u64;
        assert((b >> i) & 1 == ((a >> i) & 1) ^ ((a >> j) & 1)) by (bit_vector)
            requires
                b == a ^ (a >> 7u64),
                i < 57,
                j == i + 7,
        ;
    } else {
        assert((b >> i) & 1 == ((a >> i) & 1) ^ 0) by (bit_vector)
            requires
                b == a ^ (a >> 7u64),
                57 <= i < 64,
        ;
    }
    if i >= 17 {
        let j = (i - 17) as u64;
        assert((c >> i) & 1 == ((b >> i) & 1) ^ ((b >> j) & 1)) by (bit_vector)
            requires
                c == b ^ (b << 17u64),
                i < 64,
                i >= 17,
                j == i - 17,
        ;
    } else {
        assert((c >> i) & 1 == ((b >> i) & 1) ^ 0) by (bit_vector)
            requires
                c == b ^ (b << 17u64),
                i < 17,
        ;
    }
    (a, b)
}

/// A token shows three states, one after the other; an id shows the first of
/// them behind its prefix.
pub proof fn law_token(seed: Seed, prefix: Seq<char>)
    ensures
        ({
            let a = next_state(first_state(seed));
            &&& token_of(seed).subrange(0, 16) == digits::hex(a as nat, 16)
            &&& token_of(seed).subrange(16, 32) == digits::hex(next_state(a) as nat, 16)
            &&& token_of(seed).subrange(32, 48) == digits::hex(
                next_state(next_state(a)) as nat,
                16,
            )
            &&& id_of(prefix, seed) == prefix + seq!['-'] + digits::hex(a as nat, 16)
        }),
{
    let a = next_state(first_state(seed));
    let b = next_state(a);
    let c = next_state(b);
    lemma_hex_chars(a as nat, 16);
    lemma_hex_chars(b as nat, 16);
    lemma_hex_chars(c as nat, 16);
    reveal_strlit("-");
    assert("-"@ =~= seq!['-']);
    assert(token_of(seed).subrange(0, 16) =~= digits::hex(a as nat, 16));
    assert(token_of(seed).subrange(16, 32) =~= digits::hex(b as nat, 16));
    assert(token_of(seed).subrange(32, 48) =~= digits::hex(c as nat, 16));
    assert(token_of(seed).take(16) =~= digits::hex(a as nat, 16));
}

/// A pairing lives for the minutes that are set, and for ten where none are.
pub proof fn law_ttl(settings: Doc, minutes: u64)
    ensures
        ttl_of(None) == 10 * 60 * 1000,
        settings.whole_at("scanner_pair_ttl_minutes"@) == Some(minutes) && minutes > 0 ==> ttl_of(
            Some(settings),
        ) == minutes * 60 * 1000,
        settings.whole_at("scanner_pair_ttl_minutes"@) == Some(0u64) ==> ttl_of(Some(settings)) == 10
            * 60 * 1000,
        settings.whole_at("scanner_pair_ttl_minutes"@) is None ==> ttl_of(Some(settings)) == 10 * 60
            * 1000,
{
}

/// An entry stays in the list until its time has come; one without a time does
/// not.
pub proof fn law_live(list: Seq<Doc>, e: Doc, now: nat, t: u64)
    ensures
        live(Seq::<Doc>::empty(), now) == Seq::<Doc>::empty(),
        e.whole_at("expires_ms"@) == Some(t) && now < t ==> live(list.push(e), now) == live(
            list,
            now,
        ).push(e),
        e.whole_at("expires_ms"@) == Some(t) && now >= t ==> live(list.push(e), now) == live(
            list,
            now,
        ),
        e.whole_at("expires_ms"@) is None ==> live(list.push(e), now) == live(list, now),
{
    lists::lemma_filter_push(list, e, |x: Doc| is_live(x, now));
    lists::lemma_filter_none(|x: Doc| is_live(x, now));
}

/// What is kept of a pairing that begins, and what is answered.
pub proof fn law_pair_begins(
    token: Seq<char>,
    server: Seq<char>,
    now: u64,
    expires: u64,
    k: Seq<char>,
)
    ensures
        ({
            let e = pair_entry(token, server, now as nat, expires as nat);
            &&& e.text_at("token"@) == Some(token)
            &&& e.text_at("server_url"@) == Some(server)
            &&& e.whole_at("created_ms"@) == Some(now)
            &&& e.whole_at("expires_ms"@) == Some(expires)
            &&& e.get("consumed_device_id"@) == Some(Doc::Null)
        }),
        ({
            let a = pair_answer(token, expires as nat);
            &&& a.text_at("token"@) == Some(token)
            &&& a.whole_at("expires_ms"@) == Some(expires)
            &&& a.text_at("qr_url"@) == Some("/api/scanner/pair/"@ + token + "/qr"@)
            &&& a.text_at("status_url"@) == Some("/api/scanner/pair/"@ + token + "/status"@)
            &&& a.has(k) ==> k == "token"@ || k == "expires_ms"@ || k == "qr_url"@ || k
                == "status_url"@
        }),
{
    lemma_scanner_names();
}

/// A time that does not fit is cut to its lowest 64 bits.
pub proof fn law_low_bits(n: nat)
    ensures
        exists|q: nat| n == #[trigger] (q * 0x1_0000_0000_0000_0000) + low_bits(n),
{
    let q = n / 0x1_0000_0000_0000_0000;
    assert(n == (q * 0x1_0000_0000_0000_0000) + low_bits(n));
}

/// What the code on the screen says: how it is written, what it is for, where
/// the server is, and the token.
pub proof fn law_pair_payload(server: Seq<char>, token: Seq<char>, k: Seq<char>)
    ensures
        pair_payload(server, token).whole_at("v"@) == Some(1u64),
        pair_payload(server, token).text_at("kind"@) == Some("garage-scanner-pair"@),
        pair_payload(server, token).text_at("server"@) == Some(server),
        pair_payload(server, token).text_at("token"@) == Some(token),
        pair_payload(server, token).has(k) ==> k == "v"@ || k == "kind"@ || k == "server"@ || k
            == "token"@,
{
    lemma_scanner_names();
}

/// A drawing that was made is handed on; one that was not fails with what was
/// said.
pub proof fn law_drawing(svg: Seq<char>, message: Seq<char>)
    ensures
        drawing_from(Ok(svg)) == Ok::<Seq<char>, (Status, Seq<char>)>(svg),
        drawing_from(Err(message)) == Err::<Seq<char>, (Status, Seq<char>)>(
            (Status::Internal, message),
        ),
{
}

/// How far a pairing has come: the entry with the token that is still live
/// tells whether a device has used it.
pub proof fn law_pair_status(
    list: Seq<Doc>,
    devices: Seq<Doc>,
    token: Seq<char>,
    now: nat,
    e: Doc,
    id: Seq<char>,
    i: int,
)
    requires
        live_entry(list, token, now) == Some(e),
    ensures
        e.text_at("consumed_device_id"@) is None ==> status_answer(list, devices, token, now).text_at(
            "status"@,
        ) == Some("waiting"@) && status_answer(list, devices, token, now).whole_at("expires_ms"@)
            == Some(e.whole_or("expires_ms"@, 0)),
        e.text_at("consumed_device_id"@) == Some(id) ==> status_answer(
            list,
            devices,
            token,
            now,
        ).text_at("status"@) == Some("paired"@) && (0 <= i < devices.len() && devices[i].text_at(
            "id"@,
        ) == Some(id) && (forall|j: int|
            0 <= j < i ==> (#[trigger] devices[j]).text_at("id"@) != Some(id)) ==> status_answer(
            list,
            devices,
            token,
            now,
        ).get("device"@) == Some(devices[i])) && ((forall|j: int|
            0 <= j < devices.len() ==> (#[trigger] devices[j]).text_at("id"@) != Some(id))
            ==> status_answer(list, devices, token, now).get("device"@) == Some(Doc::Null)),
{
    lemma_scanner_names();
    records::law_found_by_id(devices, id, i);
}

/// Whether an entry of a list waits for a device with a token.
pub open spec fn awaits(e: Doc, token: Seq<char>, now: nat) -> bool {
    e.text_at("token"@) == Some(token) && (e.whole_at("expires_ms"@) matches Some(t) && t > now)
}

/// The entry for a token is one of the list that has the token and whose time
/// has not come; there is none exactly where no entry is such.
pub proof fn law_live_entry(list: Seq<Doc>, token: Seq<char>, now: nat)
    ensures
        live_entry(list, token, now) matches Some(e) ==> list.contains(e) && awaits(e, token, now),
        live_entry(list, token, now) is None <==> forall|i: int|
            0 <= i < list.len() ==> !awaits(#[trigger] list[i], token, now),
{
    lemma_live_entry(list, token, now);
    match live_entry(list, token, now) {
        Some(e) => {
            let i = choose|i: int| 0 <= i < list.len() && list[i] == e;
            assert(awaits(list[i], token, now));
        },
        None => {
            assert forall|i: int| 0 <= i < list.len() implies !awaits(
                #[trigger] list[i],
                token,
                now,
            ) by {
                assert(!(is_live(list[i], now) && has_token(list[i], token)));
            }
        },
    }
}

/// A device may register where an entry waits for it that no device has used;
/// otherwise it is told why not.
pub proof fn law_register(pending: Seq<Doc>, token: Seq<char>, now: nat, e: Doc)
    ensures
        (forall|i: int| 0 <= i < pending.len() ==> !awaits(#[trigger] pending[i], token, now))
            ==> register_refusal(pending, token, now) == Some(
            (Status::BadRequest, "pairing token expired or unknown"@),
        ),
        live_entry(pending, token, now) == Some(e) ==> register_refusal(pending, token, now) == (
        if e.text_at("consumed_device_id"@) is Some {
            Some((Status::Conflict, "pairing token already used"@))
        } else {
            None
        }),
{
    law_live_entry(pending, token, now);
}

/// Registering marks the first live entry with the token, and no other; what
/// else an entry says stays, and those whose time has come go.
pub proof fn law_pending_after(
    pending: Seq<Doc>,
    token: Seq<char>,
    id: Seq<char>,
    now: nat,
    i: int,
    j: int,
    k: Seq<char>,
)
    requires
        0 <= i < live(pending, now).len(),
        live(pending, now)[i].text_at("token"@) == Some(token),
        forall|m: int|
            0 <= m < i ==> (#[trigger] live(pending, now)[m]).text_at("token"@) != Some(token),
    ensures
        pending_after(pending, token, id, now).len() == live(pending, now).len(),
        pending_after(pending, token, id, now)[i].text_at("consumed_device_id"@) == Some(id),
        k != "consumed_device_id"@ ==> pending_after(pending, token, id, now)[i].get(k) == live(
            pending,
            now,
        )[i].get(k),
        0 <= j < live(pending, now).len() && j != i ==> pending_after(pending, token, id, now)[j]
            == live(pending, now)[j],
{
    let kept = live(pending, now);
    let wanted = |t: Doc| has_token(t, token);
    assert forall|m: int| 0 <= m < i implies !wanted(#[trigger] kept[m]) by {
        assert(kept[m].text_at("token"@) != Some(token));
    }
    lists::lemma_first_at(kept, wanted, i);
    assert(kept[i] is Object);
}

/// What is kept of a device, and what it is told: its name and what it runs on,
/// without the space around them, or what stands in for them.
pub proof fn law_device(reg: Registration, id: Seq<char>, token: Seq<char>, now: u64, k: Seq<char>)
    ensures
        ({
            let d = device_record(reg, id, token, now);
            &&& d.text_at("id"@) == Some(id)
            &&& d.text_at("device_token"@) == Some(token)
            &&& d.whole_at("created_ms"@) == Some(now)
            &&& d.whole_at("last_seen_ms"@) == Some(now)
            &&& text::trimmed(reg.name@).len() > 0 ==> d.text_at("name"@) == Some(
                text::trimmed(reg.name@),
            )
            &&& text::trimmed(reg.name@).len() == 0 ==> d.text_at("name"@) == Some("Scanner"@)
            &&& text::trimmed(reg.platform@).len() > 0 ==> d.text_at("platform"@) == Some(
                text::trimmed(reg.platform@),
            )
            &&& text::trimmed(reg.platform@).len() == 0 ==> d.text_at("platform"@) == Some(
                "unknown"@,
            )
            &&& d.text_at("app_version"@) == Some(text::trimmed(reg.app_version@))
        }),
        ({
            let a = register_answer(reg, id, token);
            &&& a.text_at("device_id"@) == Some(id)
            &&& a.text_at("device_token"@) == Some(token)
            &&& a.text_at("name"@) == device_record(reg, id, token, now).text_at("name"@)
            &&& a.has(k) ==> k == "device_id"@ || k == "device_token"@ || k == "name"@
        }),
{
    lemma_scanner_names();
}

/// A device in the list shows all that its record says but the token.
pub proof fn law_device_shown(devices: Seq<Doc>, i: int, k: Seq<char>)
    requires
        0 <= i < devices.len(),
        k != "device_token"@,
    ensures
        devices_answer(devices).items_at("items"@) matches Some(v) && v.len() == devices.len()
            && v[i].get(k) == devices[i].get(k),
{
    let v = devices.map_values(|d: Doc| d.without("device_token"@));
    assert(devices_answer(devices).items_at("items"@) == Some(v));
}

/// Deleting a device takes out those with its id and leaves the others; where
/// none has it, that is said.
pub proof fn law_device_deleted(devices: Seq<Doc>, id: Seq<char>, d: Doc, i: int)
    ensures
        (forall|j: int|
            0 <= j < devices.len() ==> (#[trigger] devices[j]).text_at("id"@) != Some(id))
            ==> devices_left(devices, id) == Err::<Seq<Doc>, (Status, Seq<char>)>(
            (Status::NotFound, "device not found"@),
        ),
        0 <= i < devices.len() && devices[i].text_at("id"@) == Some(id) ==> (devices_left(
            devices,
            id,
        ) matches Ok(v) && (v.contains(d) <==> devices.contains(d) && d.text_at("id"@) != Some(id))),
{
    records::law_found_by_id(devices, id, i);
    let wanted = |x: Doc| records::has_id(x, id);
    lists::lemma_first_found(devices, wanted);
    if 0 <= i < devices.len() && devices[i].text_at("id"@) == Some(id) {
        assert(wanted(devices[i]));
        lists::lemma_filter_holds(devices, |x: Doc| !records::has_id(x, id), d);
    }
}

/// The token in an authorization stands behind the word `Bearer`, which may
/// begin with a small letter.
pub proof fn law_bearer(rest: Seq<char>, auth: Seq<char>)
    ensures
        bearer_of("Bearer "@ + rest) == text::trimmed(rest),
        bearer_of("bearer "@ + rest) == text::trimmed(rest),
        !text::starts_with_spec(auth, "Bearer "@) && !text::starts_with_spec(auth, "bearer "@)
            ==> bearer_of(auth).len() == 0,
{
    reveal_strlit("Bearer ");
    reveal_strlit("bearer ");
    text::law_prefix("Bearer "@, rest);
    text::law_prefix("bearer "@, rest);
    let small = "bearer "@ + rest;
    text::law_prefix("Bearer "@, small);
    if let Some(t) = text::after_prefix(small, "Bearer "@) {
        assert(small == "Bearer "@ + t);
        assert(small[0] == 'b' && ("Bearer "@ + t)[0] == 'B');
    }
    text::law_prefix("Bearer "@, auth);
    text::law_prefix("bearer "@, auth);
    if let Some(t) = text::after_prefix(auth, "Bearer "@) {
        text::law_prefix("Bearer "@, t);
    }
    if let Some(t) = text::after_prefix(auth, "bearer "@) {
        text::law_prefix("bearer "@, t);
    }
}

/// A device is let in as the first that holds the token that it sends; one that
/// sends none, or one that nobody holds, is told so.
pub proof fn law_device_for(devices: Seq<Doc>, auth: Seq<char>, i: int)
    ensures
        bearer_of(auth).len() == 0 ==> device_for(devices, auth) == Err::<int, (Status, Seq<char>)>(
            (Status::Unauthorized, "missing bearer token"@),
        ),
        bearer_of(auth).len() > 0 && 0 <= i < devices.len() && devices[i].text_at("device_token"@)
            == Some(bearer_of(auth)) && (forall|j: int|
            0 <= j < i ==> (#[trigger] devices[j]).text_at("device_token"@) != Some(
                bearer_of(auth),
            )) ==> device_for(devices, auth) == Ok::<int, (Status, Seq<char>)>(i),
        bearer_of(auth).len() > 0 && (forall|j: int|
            0 <= j < devices.len() ==> (#[trigger] devices[j]).text_at("device_token"@) != Some(
                bearer_of(auth),
            )) ==> device_for(devices, auth) == Err::<int, (Status, Seq<char>)>(
            (Status::Unauthorized, "invalid device token"@),
        ),
{
    let token = bearer_of(auth);
    let wanted = |d: Doc| holds_token(d, token);
    if 0 <= i < devices.len() && devices[i].text_at("device_token"@) == Some(token) && (forall|
        j: int,
    |
        0 <= j < i ==> (#[trigger] devices[j]).text_at("device_token"@) != Some(token)) {
        assert forall|k: int| 0 <= k < i implies !wanted(#[trigger] devices[k]) by {
            assert(devices[k].text_at("device_token"@) != Some(token));
        }
        lists::lemma_first_at(devices, wanted, i);
    }
    if forall|j: int|
        0 <= j < devices.len() ==> (#[trigger] devices[j]).text_at("device_token"@) != Some(token) {
        assert forall|k: int| 0 <= k < devices.len() implies !wanted(#[trigger] devices[k]) by {
            assert(devices[k].text_at("device_token"@) != Some(token));
        }
        lists::lemma_first_nowhere(devices, wanted);
    }
}

/// The scans that are sent: those of the list, and behind them the one that is
/// sent by itself, where it has a code.
pub proof fn law_incoming(body: ScanBody, now: u64)
    ensures
        body.code is None ==> incoming_of(body, now) == json::docs(body.scans@),
        body.code matches Some(c) && text::trimmed(c@).len() == 0 ==> incoming_of(body, now)
            == json::docs(body.scans@),
        body.code matches Some(c) && text::trimmed(c@).len() > 0 ==> incoming_of(body, now)
            == json::docs(body.scans@).push(single_scan(body, now)),
{
}

/// A scan that is sent by itself says what was sent of it; where no time was
/// sent, it is now.
pub proof fn law_single_scan(body: ScanBody, now: u64)
    ensures
        body.code matches Some(c) ==> single_scan(body, now).text_at("code"@) == Some(c@),
        body.kind matches Some(k) ==> single_scan(body, now).text_at("type"@) == Some(k@),
        body.kind is None ==> single_scan(body, now).text_at("type"@) == Some(Seq::<char>::empty()),
        single_scan(body, now).get("confidence"@) == Some(body.confidence@),
        body.raw_text matches Some(t) ==> single_scan(body, now).text_at("raw_text"@) == Some(t@),
        body.raw_text is None ==> single_scan(body, now).get("raw_text"@) == Some(Doc::Null),
        body.scanned_ms matches Some(t) ==> single_scan(body, now).whole_at("scanned_ms"@) == Some(t),
        body.scanned_ms is None ==> single_scan(body, now).whole_at("scanned_ms"@) == Some(now),
{
    lemma_scanner_names();
}

/// What is kept of a scan: what it says, its id and device, and when it came.
pub proof fn law_scan_record(item: Doc, id: Seq<char>, device: Seq<char>, now: u64, k: Seq<char>)
    ensures
        ({
            let r = scan_record(item, id, device, now);
            &&& r.text_at("id"@) == Some(id)
            &&& r.text_at("device_id"@) == Some(device)
            &&& r.text_at("code"@) == Some(text::trimmed(item.text_in("code"@)))
            &&& r.text_at("type"@) == Some(item.text_in("type"@))
            &&& k == "confidence"@ || k == "raw_text"@ ==> r.get(k) == Some(
                match item.get(k) {
                    Some(d) => d,
                    None => Doc::Null,
                },
            )
            &&& r.whole_at("scanned_ms"@) == Some(item.whole_or("scanned_ms"@, now))
            &&& r.whole_at("received_ms"@) == Some(now)
            &&& r.get("dismissed"@) == Some(Doc::Bool(false))
        }),
{
    lemma_scanner_names();
}

/// A scan is kept where its code is more than space, with the id that stands
/// beside it; the others are not.
pub proof fn law_scans_kept(
    incoming: Seq<Doc>,
    ids: Seq<Seq<char>>,
    device: Seq<char>,
    now: u64,
    n: nat,
)
    requires
        n < incoming.len(),
    ensures
        scan_records(incoming, ids, device, now, 0) == Seq::<Doc>::empty(),
        text::trimmed(incoming[n as int].text_in("code"@)).len() > 0 ==> scan_records(
            incoming,
            ids,
            device,
            now,
            n + 1,
        ) == scan_records(incoming, ids, device, now, n).push(
            scan_record(incoming[n as int], ids[n as int], device, now),
        ),
        text::trimmed(incoming[n as int].text_in("code"@)).len() == 0 ==> scan_records(
            incoming,
            ids,
            device,
            now,
            n + 1,
        ) == scan_records(incoming, ids, device, now, n),
{
}

/// What is answered when scans were kept: which, and how many.
pub proof fn law_scans_stored(saved: Seq<Doc>)
    requires
        saved.len() <= u64::MAX,
    ensures
        scans_stored(saved).get("ok"@) == Some(Doc::Bool(true)),
        scans_stored(saved).whole_at("count"@) == Some(saved.len() as u64),
        scans_stored(saved).items_at("items"@) == Some(saved),
{
    lemma_scanner_names();
}

/// The scans that are asked for: those that came after a moment, where one is
/// named, and that are not dismissed, where only those are wanted; the last
/// first, and no more than are wanted.
pub proof fn law_scans_listed(
    scans: Seq<Doc>,
    since: Option<u64>,
    pending: bool,
    limit: Option<usize>,
    d: Doc,
)
    ensures
        scans_answer(scans, since, pending, None).items_at("items"@) matches Some(v) && (v.contains(d)
            <==> scans.contains(d) && (since matches Some(n) ==> d.whole_or("received_ms"@, 0) > n)
            && (pending ==> d.get("dismissed"@) != Some(Doc::Bool(true)))) && (forall|i: int, j: int|
            0 <= i < j < v.len() ==> (#[trigger] v[i]).whole_or("received_ms"@, 0) >= (
            #[trigger] v[j]).whole_or("received_ms"@, 0)) && (scans_answer(
            scans,
            since,
            pending,
            limit,
        ).items_at("items"@) matches Some(w) && (limit matches Some(n) ==> w.len() <= n && (w.len()
            == n || w.len() == v.len())) && (limit is None ==> w == v) && w == v.take(
            w.len() as int,
        )),
{
    let keep = |s: Doc| scan_asked(s, since, pending);
    let kept = scans.filter(keep);
    let le = order::newest_first("received_ms"@);
    let v = order::ranked(kept, le);
    order::law_newest_first_whole(kept, "received_ms"@);
    order::lemma_ranked_holds(kept, le, d);
    lists::lemma_filter_holds(scans, keep, d);
    assert(scans_answer(scans, since, pending, None).items_at("items"@) == Some(v));
    assert(v.take(v.len() as int) =~= v);
    let w = at_most(v, limit);
    assert(scans_answer(scans, since, pending, limit).items_at("items"@) == Some(w));
    assert(w =~= v.take(w.len() as int));
}

/// What comes of a device that calls: the devices, and which one it is.
pub open spec fn devices_seen(devices: Seq<Doc>, auth: Seq<char>, now: u64) -> Result<
    (Seq<Doc>, Seq<char>),
    (Status, Seq<char>),
> {
    match device_for(devices, auth) {
        Ok(i) => Ok(
            (
                devices.update(i, devices[i].with("last_seen_ms"@, Doc::num(now as int))),
                devices[i].text_in("id"@),
            ),
        ),
        Err(e) => Err(e),
    }
}

/// What comes of scans that are sent.
pub open spec fn scans_taken(body: ScanBody, now: u64) -> Result<Seq<Doc>, (Status, Seq<char>)> {
    if incoming_of(body, now).len() == 0 {
        Err((Status::BadRequest, "no scans in body"@))
    } else {
        Ok(incoming_of(body, now))
    }
}

/// What the code for a pairing says.
pub open spec fn payload_for(list: Seq<Doc>, token: Seq<char>, now: nat) -> Result<
    Doc,
    (Status, Seq<char>),
> {
    match live_entry(list, token, now) {
        Some(e) => Ok(pair_payload(e.text_in("server_url"@), token)),
        None => Err((Status::NotFound, "unknown or expired token"@)),
    }
}

/// What comes of a pairing that is asked for: the list of pairings, and what is
/// answered.
pub open spec fn pair_made(
    list: Seq<Doc>,
    server_url: Seq<char>,
    token: Seq<char>,
    settings: Option<Doc>,
    now: nat,
) -> Result<(Seq<Doc>, Doc), (Status, Seq<char>)> {
    let server = text::trimmed(server_url);
    let expires = now + ttl_of(settings);
    if server.len() == 0 {
        Err((Status::BadRequest, "server_url is required"@))
    } else {
        Ok(
            (
                live(list, now).push(pair_entry(token, server, now, expires)),
                pair_answer(token, expires),
            ),
        )
    }
}

/// A device that calls is told by its token: its record says that it was seen
/// now, and nothing else changes. Who is not let in changes nothing.
pub proof fn law_device_seen(devices: Seq<Doc>, auth: Seq<char>, now: u64, i: int, j: int, k: Seq<char>)
    requires
        bearer_of(auth).len() > 0,
        0 <= i < devices.len(),
        devices[i].text_at("device_token"@) == Some(bearer_of(auth)),
        forall|m: int|
            0 <= m < i ==> (#[trigger] devices[m]).text_at("device_token"@) != Some(bearer_of(auth)),
    ensures
        devices_seen(devices, auth, now) matches Ok(p) && p.1 == devices[i].text_in("id"@)
            && p.0.len() == devices.len() && p.0[i].whole_at("last_seen_ms"@) == Some(now) && (k
            != "last_seen_ms"@ ==> p.0[i].get(k) == devices[i].get(k)) && (0 <= j < devices.len() && j
            != i ==> p.0[j] == devices[j]),
{
    law_device_for(devices, auth, i);
    assert(devices[i] is Object);
}

/// A device that is not known is told why it is not let in.
pub proof fn law_device_unseen(devices: Seq<Doc>, auth: Seq<char>, now: u64)
    ensures
        device_for(devices, auth) matches Err(e) ==> devices_seen(devices, auth, now) == Err::<
            (Seq<Doc>, Seq<char>),
            (Status, Seq<char>),
        >(e),
{
}

/// Scans are taken where there is one, all that were sent; a body without any is
/// refused.
pub proof fn law_scans_taken(body: ScanBody, now: u64)
    ensures
        body.scans@.len() > 0 ==> (scans_taken(body, now) matches Ok(v) && v.len()
            >= body.scans@.len() && v.take(body.scans@.len() as int) == json::docs(body.scans@)),
        body.scans@.len() == 0 && (body.code is None || text::trimmed(body.code->0@).len() == 0)
            ==> scans_taken(body, now) == Err::<Seq<Doc>, (Status, Seq<char>)>(
            (Status::BadRequest, "no scans in body"@),
        ),
        body.code is Some && text::trimmed(body.code->0@).len() > 0 ==> (scans_taken(
            body,
            now,
        ) matches Ok(v) && v.len() == body.scans@.len() + 1 && v.last() == single_scan(body, now)),
{
    let list = json::docs(body.scans@);
    assert(list.take(list.len() as int) =~= list);
    assert(list.push(single_scan(body, now)).take(list.len() as int) =~= list);
}

/// The code for a pairing that is live names its server and its token; for
/// another token there is none.
pub proof fn law_payload_for(list: Seq<Doc>, token: Seq<char>, now: nat)
    ensures
        payload_for(list, token, now) matches Ok(d) ==> d.text_at("token"@) == Some(token) && exists|
            i: int,
        |
            0 <= i < list.len() && awaits(#[trigger] list[i], token, now) && d.text_at("server"@)
                == Some(list[i].text_in("server_url"@)),
        (forall|i: int| 0 <= i < list.len() ==> !awaits(#[trigger] list[i], token, now))
            ==> payload_for(list, token, now) == Err::<Doc, (Status, Seq<char>)>(
            (Status::NotFound, "unknown or expired token"@),
        ),
        (exists|i: int| 0 <= i < list.len() && awaits(#[trigger] list[i], token, now))
            ==> payload_for(list, token, now) is Ok,
{
    law_live_entry(list, token, now);
    if let Some(e) = live_entry(list, token, now) {
        law_pair_payload(e.text_in("server_url"@), token, "v"@);
        let i = choose|i: int| 0 <= i < list.len() && list[i] == e;
        assert(awaits(list[i], token, now));
    }
}

/// A pairing that is asked for stands behind those that are live, waits for a
/// device until its time comes, and can be asked for by its token. Without a
/// server there is none.
pub proof fn law_pair_made(
    list: Seq<Doc>,
    server_url: Seq<char>,
    token: Seq<char>,
    settings: Option<Doc>,
    now: nat,
)
    requires
        now + ttl_of(settings) <= u64::MAX,
    ensures
        text::trimmed(server_url).len() == 0 ==> pair_made(list, server_url, token, settings, now)
            == Err::<(Seq<Doc>, Doc), (Status, Seq<char>)>(
            (Status::BadRequest, "server_url is required"@),
        ),
        text::trimmed(server_url).len() > 0 ==> (pair_made(
            list,
            server_url,
            token,
            settings,
            now,
        ) matches Ok(p) && p.0.drop_last() == live(list, now) && awaits(p.0.last(), token, now)
            && p.0.last().text_at("server_url"@) == Some(text::trimmed(server_url))
            && p.0.last().whole_at("created_ms"@) == Some(now as u64) && p.0.last().whole_at(
            "expires_ms"@,
        ) == Some((now + ttl_of(settings)) as u64) && p.0.last().text_at("consumed_device_id"@) is None
            && p.1.text_at("token"@) == Some(token) && p.1.whole_at("expires_ms"@) == Some(
            (now + ttl_of(settings)) as u64,
        )),
{
    let server = text::trimmed(server_url);
    let expires = now + ttl_of(settings);
    law_pair_begins(token, server, now as u64, expires as u64, "token"@);
    let e = pair_entry(token, server, now, expires);
    assert(live(list, now).push(e).drop_last() =~= live(list, now));
}

/// What comes of a device that registers: the pairings, the devices, and what
/// it is told.
pub open spec fn device_registered(
    pending: Seq<Doc>,
    devices: Seq<Doc>,
    reg: Registration,
    id: Seq<char>,
    token: Seq<char>,
    now: nat,
) -> Result<(Seq<Doc>, Seq<Doc>, Doc), (Status, Seq<char>)> {
    match register_refusal(pending, reg.pair_token@, now) {
        Some(e) => Err(e),
        None => Ok(
            (
                pending_after(pending, reg.pair_token@, id, now),
                devices.push(device_record(reg, id, token, low_bits(now))),
                register_answer(reg, id, token),
            ),
        ),
    }
}

/// What comes of scans that a device posts: all scans, and what is answered.
pub open spec fn scans_posted(
    scans: Seq<Doc>,
    incoming: Seq<Doc>,
    ids: Seq<Seq<char>>,
    device: Seq<char>,
    now: u64,
) -> (Seq<Doc>, Doc) {
    let saved = scan_records(incoming, ids, device, now, incoming.len());
    (scans + saved, scans_stored(saved))
}

/// A device registers exactly where a pairing waits for it that is not used;
/// then it stands behind the other devices, with the id and the token that it
/// is told, as seen now.
pub proof fn law_device_registered(
    pending: Seq<Doc>,
    devices: Seq<Doc>,
    reg: Registration,
    id: Seq<char>,
    token: Seq<char>,
    now: nat,
)
    requires
        now <= u64::MAX,
    ensures
        device_registered(pending, devices, reg, id, token, now) is Ok <==> (live_entry(
            pending,
            reg.pair_token@,
            now,
        ) matches Some(e) && e.text_at("consumed_device_id"@) is None),
        device_registered(pending, devices, reg, id, token, now) matches Err(e) ==> register_refusal(
            pending,
            reg.pair_token@,
            now,
        ) == Some(e),
        device_registered(pending, devices, reg, id, token, now) matches Ok(p)
            ==> p.1.drop_last() == devices && p.1.last().text_at("id"@) == Some(id)
            && p.1.last().text_at("device_token"@) == Some(token) && p.1.last().whole_at(
            "created_ms"@,
        ) == Some(now as u64) && p.1.last().whole_at("last_seen_ms"@) == Some(now as u64)
            && p.2.text_at("device_id"@) == Some(id) && p.2.text_at("device_token"@) == Some(token)
            && p.2.text_at("name"@) == p.1.last().text_at("name"@) && p.0 == pending_after(
            pending,
            reg.pair_token@,
            id,
            now,
        ),
{
    law_device(reg, id, token, now as u64, "name"@);
    let d = device_record(reg, id, token, low_bits(now));
    assert(low_bits(now) == now as u64);
    assert(devices.push(d).drop_last() =~= devices);
    law_register(pending, reg.pair_token@, now, Doc::Null);
    if let Some(e) = live_entry(pending, reg.pair_token@, now) {
        law_register(pending, reg.pair_token@, now, e);
    }
}

/// The scans that were there stay, and those that are kept stand behind them;
/// what is answered says which, and how many.
pub proof fn law_scans_posted(
    scans: Seq<Doc>,
    incoming: Seq<Doc>,
    ids: Seq<Seq<char>>,
    device: Seq<char>,
    now: u64,
)
    requires
        incoming.len() <= u64::MAX,
    ensures
        ({
            let p = scans_posted(scans, incoming, ids, device, now);
            &&& p.0.take(scans.len() as int) == scans
            &&& p.1.items_at("items"@) == Some(p.0.skip(scans.len() as int))
            &&& p.0.skip(scans.len() as int) == scan_records(
                incoming,
                ids,
                device,
                now,
                incoming.len(),
            )
            &&& p.1.whole_at("count"@) == Some((p.0.len() - scans.len()) as u64)
        }),
{
    let saved = scan_records(incoming, ids, device, now, incoming.len());
    lemma_few_scans(incoming, ids, device, now, incoming.len());
    law_scans_stored(saved);
    assert((scans + saved).take(scans.len() as int) =~= scans);
    assert((scans + saved).skip(scans.len() as int) =~= saved);
}

proof fn lemma_few_scans(
    incoming: Seq<Doc>,
    ids: Seq<Seq<char>>,
    device: Seq<char>,
    now: u64,
    n: nat,
)
    ensures
        scan_records(incoming, ids, device, now, n).len() <= n,
    decreases n,
{
    if n > 0 {
        lemma_few_scans(incoming, ids, device, now, (n - 1) as nat);
    }
}

} // verus!
