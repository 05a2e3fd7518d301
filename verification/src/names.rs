//! Where records are kept, and how names from outside become file names.
use crate::digits;
use crate::lists;
use crate::text;
use vstd::prelude::*;

verus! {

/// A path below a directory.
pub open spec fn below(dir: Seq<char>, name: Seq<char>) -> Seq<char> {
    dir + "/"@ + name
}

fn join_path(dir: &str, name: &str) -> (r: String)
    ensures
        r@ == below(dir@, name@),
{
    text::cat3(dir, "/", name)
}

pub fn cars_dir() -> (r: String)
    ensures
        r@ == "cars"@,
{
    "cars".to_owned()
}

pub fn workers_dir() -> (r: String)
    ensures
        r@ == "workers"@,
{
    "workers".to_owned()
}

pub fn store_dir() -> (r: String)
    ensures
        r@ == "store"@,
{
    "store".to_owned()
}

pub fn store_items_dir() -> (r: String)
    ensures
        r@ == below("store"@, "items"@),
{
    join_path(store_dir().as_str(), "items")
}

pub fn store_divisions_file() -> (r: String)
    ensures
        r@ == below("store"@, "divisions.json"@),
{
    join_path(store_dir().as_str(), "divisions.json")
}

pub fn store_division_photos_dir() -> (r: String)
    ensures
        r@ == below("store"@, "division-photos"@),
{
    join_path(store_dir().as_str(), "division-photos")
}

pub fn settings_dir() -> (r: String)
    ensures
        r@ == "settings"@,
{
    "settings".to_owned()
}

/// The autofill rules lie with the settings, as they do on the screen.
pub fn autofill_rules_file() -> (r: String)
    ensures
        r@ == below("settings"@, "autofill.json"@),
{
    join_path(settings_dir().as_str(), "autofill.json")
}

pub fn settings_file() -> (r: String)
    ensures
        r@ == below("settings"@, "settings.json"@),
{
    join_path(settings_dir().as_str(), "settings.json")
}

pub fn chat_dir() -> (r: String)
    ensures
        r@ == "chat"@,
{
    "chat".to_owned()
}

pub fn chat_messages_file() -> (r: String)
    ensures
        r@ == below("chat"@, "messages.json"@),
{
    join_path(chat_dir().as_str(), "messages.json")
}

pub fn scanner_dir() -> (r: String)
    ensures
        r@ == "scanner"@,
{
    "scanner".to_owned()
}

pub fn scanner_devices_file() -> (r: String)
    ensures
        r@ == below("scanner"@, "devices.json"@),
{
    join_path(scanner_dir().as_str(), "devices.json")
}

pub fn scanner_pending_tokens_file() -> (r: String)
    ensures
        r@ == below("scanner"@, "pending-tokens.json"@),
{
    join_path(scanner_dir().as_str(), "pending-tokens.json")
}

pub fn scanner_scans_file() -> (r: String)
    ensures
        r@ == below("scanner"@, "scans.json"@),
{
    join_path(scanner_dir().as_str(), "scans.json")
}

pub fn legacy_database_dir() -> (r: String)
    ensures
        r@ == "database"@,
{
    "database".to_owned()
}

/// Whether a program in that directory was started where it was built: in
/// `target/release` or `target/debug`.
pub open spec fn is_build_dir(dir: Seq<char>, parent: Option<Seq<char>>) -> bool {
    (dir == "release"@ || dir == "debug"@) && parent == Some("target"@)
}

/// Whether the data of the program lies two directories up: it was started
/// where it was built.
pub fn base_dir(dir: &str, parent: Option<&str>) -> (r: bool)
    ensures
        r == is_build_dir(dir@, crate::json::opt_str(parent)),
{
    let built = text::same(dir, "release") || text::same(dir, "debug");
    match parent {
        Some(p) => built && text::same(p, "target"),
        None => false,
    }
}

/// Letters and digits of ASCII.
pub open spec fn is_plain(c: char) -> bool {
    ('a' <= c <= 'z') || ('A' <= c <= 'Z') || ('0' <= c <= '9')
}

fn plain(c: char) -> (r: bool)
    ensures
        r == is_plain(c),
{
    ('a' <= c && c <= 'z') || ('A' <= c && c <= 'Z') || ('0' <= c && c <= '9')
}

/// The characters that a file name may hold.
pub open spec fn name_char(c: char) -> bool {
    is_plain(c) || c == '-' || c == '_' || c == '.'
}

/// The characters that a number plate may hold.
pub open spec fn plate_char(c: char) -> bool {
    is_plain(c) || c == '-' || c == '_'
}

/// A name with what a file name may not hold left out.
pub open spec fn safe_name(s: Seq<char>) -> Seq<char> {
    let kept = s.filter(|c: char| name_char(c));
    if kept.len() == 0 {
        "untitled"@
    } else {
        kept
    }
}

/// A number plate in capitals, with what it may not hold left out.
pub open spec fn safe_plate(s: Seq<char>) -> Seq<char> {
    let kept = s.filter(|c: char| plate_char(c));
    if kept.len() == 0 {
        "UNKNOWN"@
    } else {
        text::all_capital(kept)
    }
}

pub fn sanitize_filename(input: &str) -> (r: String)
    ensures
        r@ == safe_name(input@),
{
    let mut out = String::new();
    let ghost keep = |c: char| name_char(c);
    proof {
        lists::lemma_filter_none(keep);
        assert(input@.take(0) =~= Seq::<char>::empty());
    }
    for c in it: input.chars()
        invariant
            it.seq() == input@,
            keep == (|c: char| name_char(c)),
            out@ == input@.take(it.index() as int).filter(keep),
    {
        proof {
            lists::lemma_filter_step(input@, it.index() as int, keep);
        }
        if plain(c) || c == '-' || c == '_' || c == '.' {
            out.push(c);
        }
    }
    assert(input@.take(input@.len() as int) =~= input@);
    if out.as_str().is_empty() {
        "untitled".to_owned()
    } else {
        out
    }
}

pub fn sanitize_plate(input: &str) -> (r: String)
    ensures
        r@ == safe_plate(input@),
{
    let mut out = String::new();
    let ghost keep = |c: char| plate_char(c);
    proof {
        lists::lemma_filter_none(keep);
        assert(input@.take(0) =~= Seq::<char>::empty());
    }
    for c in it: input.chars()
        invariant
            it.seq() == input@,
            keep == (|c: char| plate_char(c)),
            out@ == input@.take(it.index() as int).filter(keep),
    {
        proof {
            lists::lemma_filter_step(input@, it.index() as int, keep);
        }
        if plain(c) || c == '-' || c == '_' {
            out.push(c);
        }
    }
    assert(input@.take(input@.len() as int) =~= input@);
    if out.as_str().is_empty() {
        "UNKNOWN".to_owned()
    } else {
        text::ascii_upper(out.as_str())
    }
}

/// A safe name is never empty and holds nothing but letters, digits, `-`,
/// `_` and `.`; in particular no path separator. Making it safe again changes
/// nothing.
pub proof fn law_safe_name(s: Seq<char>)
    ensures
        safe_name(s).len() > 0,
        forall|i: int| 0 <= i < safe_name(s).len() ==> name_char(#[trigger] safe_name(s)[i]),
        safe_name(safe_name(s)) == safe_name(s),
{
    reveal_strlit("untitled");
    let keep = |c: char| name_char(c);
    let kept = s.filter(keep);
    let r = safe_name(s);
    assert forall|i: int| 0 <= i < r.len() implies keep(#[trigger] r[i]) by {
        if kept.len() > 0 {
            assert(kept.contains(kept[i]));
            lists::lemma_filter_holds(s, keep, kept[i]);
        }
    }
    assert forall|i: int| 0 <= i < r.len() implies name_char(#[trigger] r[i]) by {
        assert(keep(r[i]));
    }
    lists::lemma_filter_all(r, keep);
}

/// A safe number plate is never empty and holds nothing but capitals,
/// digits, `-` and `_`. Making it safe again changes nothing.
pub proof fn law_safe_plate(s: Seq<char>)
    ensures
        safe_plate(s).len() > 0,
        forall|i: int|
            0 <= i < safe_plate(s).len() ==> plate_char(#[trigger] safe_plate(s)[i])
                && !('a' <= safe_plate(s)[i] <= 'z'),
        safe_plate(safe_plate(s)) == safe_plate(s),
{
    reveal_strlit("UNKNOWN");
    let keep = |c: char| plate_char(c);
    let kept = s.filter(keep);
    let r = safe_plate(s);
    assert forall|i: int| 0 <= i < r.len() implies keep(#[trigger] r[i]) && !('a' <= r[i] <= 'z') by {
        if kept.len() > 0 {
            assert(kept.contains(kept[i]));
            lists::lemma_filter_holds(s, keep, kept[i]);
            assert(keep(kept[i]));
        }
    }
    assert forall|i: int|
        0 <= i < r.len() implies plate_char(#[trigger] r[i]) && !('a' <= r[i] <= 'z') by {
        assert(keep(r[i]));
    }
    lists::lemma_filter_all(r, keep);
    assert(text::all_capital(r) =~= r);
}

/// The place of the last dot.
pub open spec fn last_dot(s: Seq<char>) -> Option<int>
    decreases s.len(),
{
    if s.len() == 0 {
        None
    } else if s.last() == '.' {
        Some(s.len() - 1)
    } else {
        last_dot(s.drop_last())
    }
}

/// What follows the last dot of a file name; nothing where the only dot is
/// the first character.
pub open spec fn extension(name: Seq<char>) -> Option<Seq<char>> {
    if name == ".."@ {
        None
    } else {
        match last_dot(name) {
            Some(i) if i > 0 => Some(name.skip(i + 1)),
            _ => None,
        }
    }
}

/// A file name without its extension.
pub open spec fn stem(name: Seq<char>) -> Seq<char> {
    if extension(name) is Some {
        name.take(last_dot(name)->0)
    } else {
        name
    }
}

proof fn lemma_last_dot(s: Seq<char>, i: int)
    requires
        0 <= i <= s.len(),
        forall|k: int| i <= k < s.len() ==> #[trigger] s[k] != '.',
    ensures
        last_dot(s) == last_dot(s.take(i)),
    decreases s.len() - i,
{
    if i == s.len() {
        assert(s.take(i) =~= s);
    } else {
        lemma_last_dot(s.drop_last(), i);
        assert(s.drop_last().take(i) =~= s.take(i));
    }
}

/// A name, a dot and letters without one: the dot is the last.
pub proof fn lemma_dot_before(name: Seq<char>, ext: Seq<char>)
    requires
        forall|i: int| 0 <= i < ext.len() ==> #[trigger] ext[i] != '.',
    ensures
        last_dot(name.push('.') + ext) == Some(name.len() as int),
{
    let s = name.push('.') + ext;
    assert forall|k: int| name.len() + 1 <= k < s.len() implies #[trigger] s[k] != '.' by {
        assert(s[k] == ext[k - name.len() - 1]);
    }
    lemma_last_dot(s, name.len() as int + 1);
    assert(s.take(name.len() as int + 1) =~= name.push('.'));
}

/// The place of the last dot, where the name has an extension.
fn split_at(cs: &Vec<char>, name: &str) -> (r: Option<usize>)
    requires
        cs@ == name@,
    ensures
        match r {
            Some(i) => extension(name@) is Some && last_dot(name@) == Some(i as int) && 0 < i
                < cs@.len(),
            None => extension(name@) is None,
        },
{
    if text::same(name, "..") {
        return None;
    }
    let mut i: usize = cs.len();
    while i > 0
        invariant
            i <= cs@.len(),
            cs@ == name@,
            name@ != ".."@,
            forall|k: int| i <= k < cs@.len() ==> #[trigger] cs@[k] != '.',
        decreases i,
    {
        if cs[i - 1] == '.' {
            proof {
                lemma_last_dot(cs@, i as int);
                assert(cs@.take(i as int).last() == '.');
            }
            if i == 1 {
                return None;
            }
            return Some(i - 1);
        }
        i = i - 1;
    }
    proof {
        lemma_last_dot(cs@, 0);
    }
    None
}

/// The extension of a file name.
pub fn file_extension(name: &str) -> (r: Option<String>)
    ensures
        text::opt_text(r) == extension(name@),
{
    let cs = text::chars_of(name);
    match split_at(&cs, name) {
        Some(i) => {
            let n = cs.len();
            assert(name@.skip(i + 1) =~= cs@.subrange(i + 1, n as int));
            Some(text::text_of(&cs, i + 1, n))
        },
        None => None,
    }
}

/// The file name without its extension.
pub fn file_stem(name: &str) -> (r: String)
    ensures
        r@ == stem(name@),
{
    let cs = text::chars_of(name);
    match split_at(&cs, name) {
        Some(i) => {
            assert(name@.take(i as int) =~= cs@.subrange(0, i as int));
            text::text_of(&cs, 0, i)
        },
        None => name.to_owned(),
    }
}

/// Whether a file in a directory holds a record.
pub open spec fn is_record(name: Seq<char>) -> bool {
    extension(name) == Some("json"@)
}

pub fn is_record_file(name: &str) -> (r: bool)
    ensures
        r == is_record(name@),
{
    match file_extension(name) {
        Some(e) => text::same(e.as_str(), "json"),
        None => false,
    }
}

/// A name made safe, with `.json` at its end.
pub open spec fn record_name(s: Seq<char>) -> Seq<char> {
    let name = safe_name(s);
    if text::ends_with_spec(text::lowered(name), ".json"@) {
        name
    } else {
        name + ".json"@
    }
}

/// The file in which a record of that name is kept.
pub fn record_file(name: &str) -> (r: String)
    ensures
        r@ == record_name(name@),
{
    let name = sanitize_filename(name);
    if text::ends_with(text::lower(name.as_str()).as_str(), ".json") {
        name
    } else {
        text::cat(name.as_str(), ".json")
    }
}

/// A name that holds only what a file name may hold is safe as it is.
pub proof fn lemma_safe_as_is(s: Seq<char>)
    requires
        s.len() > 0,
        forall|i: int| 0 <= i < s.len() ==> name_char(#[trigger] s[i]),
    ensures
        safe_name(s) == s,
{
    let keep = |c: char| name_char(c);
    assert forall|i: int| 0 <= i < s.len() implies keep(#[trigger] s[i]) by {
        assert(name_char(s[i]));
    }
    lists::lemma_filter_all(s, keep);
}

/// The file of a record is safe, and asking for a record by the name of its
/// file leads to the same file.
pub proof fn law_record_name(s: Seq<char>)
    ensures
        safe_name(record_name(s)) == record_name(s),
        record_name(record_name(s)) == record_name(s),
{
    reveal_strlit(".json");
    law_safe_name(s);
    let r = record_name(s);
    let name = safe_name(s);
    assert forall|i: int| 0 <= i < r.len() implies name_char(#[trigger] r[i]) by {
        if i < name.len() {
            assert(r[i] == name[i]);
            assert(name_char(name[i]));
        } else {
            assert(r[i] == ".json"@[i - name.len()]);
        }
    }
    lemma_safe_as_is(r);
    if r != name {
        assert(r == name + ".json"@);
        let low = text::all_small(r);
        let n = name.len() as int;
        assert(".json"@.len() == 5);
        assert forall|k: int| 0 <= k < 5 implies #[trigger] low.skip(n)[k] == ".json"@[k] by {
            assert(low[n + k] == text::small(r[n + k]));
            assert(r[n + k] == ".json"@[k]);
        }
        assert(low.skip(n) =~= ".json"@);
        assert(forall|i: int| 0 <= i < r.len() ==> (#[trigger] r[i]) as u32 <= 127);
    }
}

/// The id of a record that is made at some moment.
pub open spec fn stamped(prefix: Seq<char>, now: nat) -> Seq<char> {
    prefix + digits::decimal(now)
}

pub fn stamped_id(prefix: &str, now: u128) -> (r: String)
    ensures
        r@ == stamped(prefix@, now as nat),
{
    text::cat(prefix, digits::number_text(now).as_str())
}

/// Records that are made at different moments have different ids.
pub proof fn law_stamps_differ(prefix: Seq<char>, a: nat, b: nat)
    requires
        stamped(prefix, a) == stamped(prefix, b),
    ensures
        a == b,
{
    let n = prefix.len() as int;
    assert(stamped(prefix, a).skip(n) =~= digits::decimal(a));
    assert(stamped(prefix, b).skip(n) =~= digits::decimal(b));
    if a != b {
        digits::law_decimal_distinct(a, b);
    }
}

/// A character as it stands in a code: a letter or digit as it is, any other
/// as `_` and its number in six hexadecimal digits.
pub open spec fn char_code(c: char) -> Seq<char> {
    if is_plain(c) {
        seq![c]
    } else {
        seq!['_'] + digits::hex(c as u32 as nat, 6)
    }
}

/// A text in letters, digits and `_` alone, from which it can be read again.
pub open spec fn code_of(s: Seq<char>) -> Seq<char>
    decreases s.len(),
{
    if s.len() == 0 {
        Seq::<char>::empty()
    } else {
        char_code(s[0]) + code_of(s.drop_first())
    }
}

pub fn encode_name(s: &str) -> (r: String)
    ensures
        r@ == code_of(s@),
{
    let cs = text::chars_of(s);
    let mut out = String::new();
    let mut i: usize = 0;
    assert(cs@.skip(0) =~= s@);
    assert(out@ + code_of(s@) =~= code_of(s@));
    while i < cs.len()
        invariant
            cs@ == s@,
            i <= cs@.len(),
            out@ + code_of(s@.skip(i as int)) == code_of(s@),
        decreases cs@.len() - i,
    {
        let ghost before = out@;
        assert(s@.skip(i as int).drop_first() =~= s@.skip(i + 1));
        if plain(cs[i]) {
            out.push(cs[i]);
        } else {
            out.push('_');
            out.append(digits::hex_text(cs[i] as u32 as u64, 6).as_str());
        }
        assert(out@ =~= before + char_code(s@[i as int]));
        assert(out@ + code_of(s@.skip(i + 1)) =~= before + code_of(s@.skip(i as int)));
        i = i + 1;
    }
    assert(out@ + code_of(s@.skip(i as int)) =~= out@);
    out
}

/// A code holds nothing but letters, digits and `_`.
pub proof fn lemma_code_plain(s: Seq<char>)
    ensures
        forall|i: int|
            0 <= i < code_of(s).len() ==> is_plain(#[trigger] code_of(s)[i]) || code_of(s)[i] == '_',
    decreases s.len(),
{
    if s.len() > 0 {
        lemma_code_plain(s.drop_first());
        digits::lemma_hex_digits(s[0] as u32 as nat, 6);
        let head = char_code(s[0]);
        let tail = code_of(s.drop_first());
        assert forall|i: int| 0 <= i < code_of(s).len() implies is_plain(#[trigger] code_of(s)[i])
            || code_of(s)[i] == '_' by {
            if i >= head.len() {
                assert(code_of(s)[i] == tail[i - head.len()]);
            } else {
                assert(code_of(s)[i] == head[i]);
                if !is_plain(s[0]) && i > 0 {
                    assert(head[i] == digits::hex(s[0] as u32 as nat, 6)[i - 1]);
                }
            }
        }
    }
}

/// Two texts have different codes.
pub proof fn law_codes_differ(a: Seq<char>, b: Seq<char>)
    requires
        a != b,
    ensures
        code_of(a) != code_of(b),
    decreases a.len(),
{
    if code_of(a) == code_of(b) {
        if a.len() > 0 {
            digits::lemma_hex_digits(a[0] as u32 as nat, 6);
        }
        if b.len() > 0 {
            digits::lemma_hex_digits(b[0] as u32 as nat, 6);
        }
        if a.len() == 0 || b.len() == 0 {
            assert(a =~= b);
        } else {
            let x = code_of(a);
            assert(x[0] == char_code(a[0])[0]);
            assert(x[0] == char_code(b[0])[0]);
            if !is_plain(a[0]) {
                assert(x.subrange(1, 7) =~= digits::hex(a[0] as u32 as nat, 6));
                assert(x.subrange(1, 7) =~= digits::hex(b[0] as u32 as nat, 6));
                if a[0] != b[0] {
                    vstd::utf8::char_is_scalar(a[0]);
                    vstd::utf8::char_is_scalar(b[0]);
                    vstd::utf8::char_u32_cast(a[0], a[0] as u32);
                    vstd::utf8::char_u32_cast(b[0], b[0] as u32);
                    digits::law_hex_distinct(a[0] as u32 as nat, b[0] as u32 as nat);
                }
            }
            assert(a[0] == b[0]);
            let n = char_code(a[0]).len() as int;
            assert(x.skip(n) =~= code_of(a.drop_first()));
            assert(x.skip(n) =~= code_of(b.drop_first()));
            if a.drop_first() == b.drop_first() {
                assert(a =~= seq![a[0]] + a.drop_first());
                assert(b =~= seq![b[0]] + b.drop_first());
            } else {
                law_codes_differ(a.drop_first(), b.drop_first());
            }
        }
    }
}

/// A file whose name does not end in `.json` holds no record.
pub proof fn law_record_ending(name: Seq<char>)
    ensures
        is_record(name) ==> text::ends_with_spec(name, ".json"@) && name.len() > 5,
{
    reveal_strlit(".json");
    reveal_strlit("json");
    if is_record(name) {
        lemma_last_dot_is(name);
        let i = last_dot(name)->0;
        assert(name.skip(i + 1) =~= "json"@);
        assert(name.len() == i + 5);
        assert(name.skip(name.len() - 5) =~= ".json"@) by {
            assert forall|k: int| 0 <= k < 5 implies name.skip(name.len() - 5)[k] == ".json"@[k] by {
                if k > 0 {
                    assert(name.skip(i + 1)[k - 1] == "json"@[k - 1]);
                }
            }
        }
    }
}

proof fn lemma_last_dot_is(s: Seq<char>)
    ensures
        last_dot(s) matches Some(i) ==> 0 <= i < s.len() && s[i] == '.' && forall|k: int|
            i < k < s.len() ==> #[trigger] s[k] != '.',
        last_dot(s) is None ==> forall|k: int| 0 <= k < s.len() ==> #[trigger] s[k] != '.',
    decreases s.len(),
{
    if s.len() > 0 && s.last() != '.' {
        lemma_last_dot_is(s.drop_last());
        assert forall|k: int| 0 <= k < s.len() - 1 implies s[k] == s.drop_last()[k] by {}
    }
}

proof fn lemma_filter_has_one(s: Seq<char>, keep: spec_fn(char) -> bool, i: int)
    requires
        0 <= i < s.len(),
        keep(s[i]),
    ensures
        s.filter(keep).len() > 0,
{
    lists::lemma_filter_holds(s, keep, s[i]);
    assert(s.contains(s[i]));
    let k = choose|k: int| 0 <= k < s.filter(keep).len() && s.filter(keep)[k] == s[i];
}

/// Making a name safe drops what is no letter, no digit, no `-`, `_` or `.`,
/// and nothing else; what has nothing to keep becomes `untitled`.
pub proof fn law_name_made_safe(s: Seq<char>, c: char, i: int)
    ensures
        safe_name(Seq::<char>::empty()) == "untitled"@,
        !('a' <= c <= 'z' || 'A' <= c <= 'Z' || '0' <= c <= '9' || c == '-' || c == '_' || c == '.')
            ==> safe_name(s.push(c)) == safe_name(s),
        ('a' <= c <= 'z' || 'A' <= c <= 'Z' || '0' <= c <= '9' || c == '-' || c == '_' || c == '.')
            ==> safe_name(seq![c]) == seq![c],
        ('a' <= c <= 'z' || 'A' <= c <= 'Z' || '0' <= c <= '9' || c == '-' || c == '_' || c == '.')
            && 0 <= i < s.len() && ('a' <= s[i] <= 'z' || 'A' <= s[i] <= 'Z' || '0' <= s[i] <= '9'
            || s[i] == '-' || s[i] == '_' || s[i] == '.') ==> safe_name(s.push(c)) == safe_name(
            s,
        ).push(c),
{
    let keep = |x: char| name_char(x);
    lists::lemma_filter_none(keep);
    lists::lemma_filter_push(s, c, keep);
    lists::lemma_filter_push(Seq::<char>::empty(), c, keep);
    assert(Seq::<char>::empty().push(c) =~= seq![c]);
    if 0 <= i < s.len() && name_char(s[i]) {
        lemma_filter_has_one(s, keep, i);
    }
}

/// Making a number plate safe drops what is no letter, no digit, no `-` and no
/// `_`, and makes the letters capitals; what has nothing to keep becomes
/// `UNKNOWN`.
pub proof fn law_plate_made_safe(s: Seq<char>, c: char, i: int)
    ensures
        safe_plate(Seq::<char>::empty()) == "UNKNOWN"@,
        !('a' <= c <= 'z' || 'A' <= c <= 'Z' || '0' <= c <= '9' || c == '-' || c == '_')
            ==> safe_plate(s.push(c)) == safe_plate(s),
        ('A' <= c <= 'Z' || '0' <= c <= '9' || c == '-' || c == '_') ==> safe_plate(seq![c])
            == seq![c],
        ('A' <= c <= 'Z' || '0' <= c <= '9' || c == '-' || c == '_') && 0 <= i < s.len() && ('a'
            <= s[i] <= 'z' || 'A' <= s[i] <= 'Z' || '0' <= s[i] <= '9' || s[i] == '-' || s[i]
            == '_') ==> safe_plate(s.push(c)) == safe_plate(s).push(c),
        'a' <= c <= 'z' ==> safe_plate(seq![c]).len() == 1 && safe_plate(seq![c])[0] as int
            == c as int - 32,
        'a' <= c <= 'z' && 0 <= i < s.len() && ('a' <= s[i] <= 'z' || 'A' <= s[i] <= 'Z' || '0'
            <= s[i] <= '9' || s[i] == '-' || s[i] == '_') ==> safe_plate(s.push(c)).len()
            == safe_plate(s).len() + 1 && safe_plate(s.push(c)).drop_last() == safe_plate(s)
            && safe_plate(s.push(c)).last() as int == c as int - 32,
{
    let keep = |x: char| plate_char(x);
    let empty = Seq::<char>::empty();
    lists::lemma_filter_none(keep);
    lists::lemma_filter_push(s, c, keep);
    lists::lemma_filter_push(empty, c, keep);
    assert(empty.push(c) =~= seq![c]);
    let kept = s.filter(keep);
    text::law_case(kept.push(c), kept.len() as int);
    text::law_case(seq![c], 0);
    assert(text::all_capital(kept.push(c)).drop_last() =~= text::all_capital(kept));
    assert(text::all_capital(kept.push(c)) =~= text::all_capital(kept).push(
        text::all_capital(kept.push(c)).last(),
    ));
    assert(text::all_capital(seq![c]) =~= seq![text::all_capital(seq![c])[0]]);
    if 0 <= i < s.len() && plate_char(s[i]) {
        lemma_filter_has_one(s, keep, i);
    }
}

/// The extension of a file name stands behind its last dot, and its stem
/// before it. A name without a dot, or with none but at its start, has no
/// extension.
pub proof fn law_extension(front: Seq<char>, ext: Seq<char>)
    requires
        forall|k: int| 0 <= k < ext.len() ==> #[trigger] ext[k] != '.',
    ensures
        front.len() > 0 && !(front == seq!['.'] && ext.len() == 0) ==> extension(
            front + seq!['.'] + ext,
        ) == Some(ext) && stem(front + seq!['.'] + ext) == front,
        extension(ext) is None && stem(ext) == ext,
        extension(seq!['.'] + ext) is None && stem(seq!['.'] + ext) == seq!['.'] + ext,
        extension(seq!['.', '.']) is None,
{
    reveal_strlit("..");
    let name = front + seq!['.'] + ext;
    lemma_last_dot_is(name);
    let n = front.len() as int;
    assert(name[n] == '.');
    if let Some(i) = last_dot(name) {
        if i > n {
            assert(name[i] == ext[i - n - 1]);
        }
        assert(i == n);
    }
    assert(name.skip(n + 1) =~= ext);
    assert(name.take(n) =~= front);
    if name == ".."@ {
        assert(name.len() == 2);
        assert(name[0] == '.' && name[1] == '.');
        if ext.len() == 1 {
            assert(name[1] == ext[0]);
        }
        assert(front =~= seq!['.']);
    }
    lemma_last_dot_is(ext);
    let hidden = seq!['.'] + ext;
    lemma_last_dot_is(hidden);
    if let Some(i) = last_dot(hidden) {
        if i > 0 {
            assert(hidden[i] == ext[i - 1]);
        }
    }
    assert(seq!['.', '.'] =~= ".."@);
}

/// The file of a record has the safe name; `.json` is put behind it where it
/// does not end so already, whatever the case of its letters.
pub proof fn law_record_file(s: Seq<char>)
    ensures
        record_name(s) == safe_name(s) || record_name(s) == safe_name(s) + ".json"@,
        record_name(s) == safe_name(s) <==> text::ends_with_spec(
            text::lowered(safe_name(s)),
            ".json"@,
        ),
        text::ends_with_spec(safe_name(s), ".json"@) ==> record_name(s) == safe_name(s),
{
    reveal_strlit(".json");
    law_safe_name(s);
    let name = safe_name(s);
    assert(forall|i: int| 0 <= i < name.len() ==> (#[trigger] name[i]) as u32 <= 127) by {
        assert forall|i: int| 0 <= i < name.len() implies (#[trigger] name[i]) as u32 <= 127 by {
            assert(name_char(name[i]));
        }
    }
    if name + ".json"@ == name {
        assert((name + ".json"@).len() == name.len() + 5);
    }
    if text::ends_with_spec(name, ".json"@) {
        let low = text::all_small(name);
        let n = name.len() - 5;
        assert(name.skip(n) =~= ".json"@);
        assert forall|k: int| 0 <= k < 5 implies #[trigger] low.skip(n)[k] == ".json"@[k] by {
            assert(low[n + k] == text::small(name[n + k]));
            assert(name[n + k] == name.skip(n)[k]);
        }
        assert(low.skip(n) =~= ".json"@);
    }
}

/// The id of a record: what it is, and behind it the moment in digits.
pub proof fn law_stamped(prefix: Seq<char>, now: nat)
    ensures
        stamped(prefix, now).take(prefix.len() as int) == prefix,
        stamped(prefix, now).skip(prefix.len() as int) == digits::decimal(now),
{
    assert(stamped(prefix, now).take(prefix.len() as int) =~= prefix);
    assert(stamped(prefix, now).skip(prefix.len() as int) =~= digits::decimal(now));
}

/// What stands below a directory: its name behind that of the directory, with
/// a slash between them.
pub proof fn law_below(dir: Seq<char>, name: Seq<char>)
    ensures
        below(dir, name) == dir + seq!['/'] + name,
{
    reveal_strlit("/");
    assert("/"@ =~= seq!['/']);
}

/// A program that was just built lies in one of two directories below
/// `target`.
pub proof fn law_build_dir(dir: Seq<char>, parent: Option<Seq<char>>)
    ensures
        is_build_dir("release"@, Some("target"@)),
        is_build_dir("debug"@, Some("target"@)),
        parent != Some("target"@) ==> !is_build_dir(dir, parent),
        dir != "release"@ && dir != "debug"@ ==> !is_build_dir(dir, parent),
{
}

/// The code of a text is made letter by letter: a plain letter or digit stands
/// for itself, any other character for a bar and six digits.
pub proof fn law_code_of(c: char, rest: Seq<char>)
    ensures
        code_of(Seq::<char>::empty()) == Seq::<char>::empty(),
        'a' <= c <= 'z' || 'A' <= c <= 'Z' || '0' <= c <= '9' ==> code_of(seq![c] + rest) == seq![c]
            + code_of(rest),
        !('a' <= c <= 'z' || 'A' <= c <= 'Z' || '0' <= c <= '9') ==> code_of(seq![c] + rest) == seq![
            '_',
        ] + digits::hex(c as u32 as nat, 6) + code_of(rest),
{
    let s = seq![c] + rest;
    assert(s.drop_first() =~= rest);
    assert(s[0] == c);
}

/// A name with an extension is its stem, a dot and the extension.
pub proof fn law_extension_splits(name: Seq<char>)
    ensures
        extension(name) matches Some(e) ==> name == stem(name) + seq!['.'] + e,
        extension(name) is None ==> stem(name) == name,
{
    lemma_last_dot_is(name);
    if let Some(e) = extension(name) {
        let i = last_dot(name)->0;
        assert(name =~= name.take(i) + seq!['.'] + name.skip(i + 1));
    }
}

} // verus!
