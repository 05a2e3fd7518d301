//! Text: trimming, splitting, joining, letter case and order.
use crate::outside;
use vstd::prelude::*;
use vstd::string::*;

verus! {

/// The characters that Unicode calls white space.
pub open spec fn is_space(c: char) -> bool {
    ||| '\u{9}' <= c <= '\u{d}'
    ||| c == ' '
    ||| c == '\u{85}'
    ||| c == '\u{a0}'
    ||| c == '\u{1680}'
    ||| '\u{2000}' <= c <= '\u{200a}'
    ||| c == '\u{2028}'
    ||| c == '\u{2029}'
    ||| c == '\u{202f}'
    ||| c == '\u{205f}'
    ||| c == '\u{3000}'
}

pub fn space(c: char) -> (r: bool)
    ensures
        r == is_space(c),
{
    ('\u{9}' <= c && c <= '\u{d}') || c == ' ' || c == '\u{85}' || c == '\u{a0}' || c == '\u{1680}'
        || ('\u{2000}' <= c && c <= '\u{200a}') || c == '\u{2028}' || c == '\u{2029}' || c
        == '\u{202f}' || c == '\u{205f}' || c == '\u{3000}'
}

/// The characters of a text, one by one.
pub fn chars_of(s: &str) -> (r: Vec<char>)
    ensures
        r@ == s@,
{
    let mut v: Vec<char> = Vec::new();
    for c in it: s.chars()
        invariant
            it.seq() == s@,
            v@ =~= s@.take(it.index() as int),
    {
        v.push(c);
    }
    assert(s@.take(s@.len() as int) =~= s@);
    v
}

/// The text made of the characters from `from` up to `to`.
pub fn text_of(cs: &Vec<char>, from: usize, to: usize) -> (r: String)
    requires
        from <= to <= cs@.len(),
    ensures
        r@ == cs@.subrange(from as int, to as int),
{
    let mut out = String::new();
    let mut i: usize = from;
    while i < to
        invariant
            from <= i <= to <= cs@.len(),
            out@ =~= cs@.subrange(from as int, i as int),
        decreases to - i,
    {
        out.push(cs[i]);
        i = i + 1;
    }
    out
}

/// A text without the white space that it starts with.
pub open spec fn without_leading(s: Seq<char>) -> Seq<char>
    decreases s.len(),
{
    if s.len() > 0 && is_space(s[0]) {
        without_leading(s.drop_first())
    } else {
        s
    }
}

/// A text without the white space that it ends with.
pub open spec fn without_trailing(s: Seq<char>) -> Seq<char>
    decreases s.len(),
{
    if s.len() > 0 && is_space(s.last()) {
        without_trailing(s.drop_last())
    } else {
        s
    }
}

/// A text without white space at either end.
pub open spec fn trimmed(s: Seq<char>) -> Seq<char> {
    without_trailing(without_leading(s))
}

/// The text without white space at either end.
pub fn trim(s: &str) -> (r: String)
    ensures
        r@ == trimmed(s@),
{
    let cs = chars_of(s);
    let n = cs.len();
    let mut i: usize = 0;
    assert(cs@.subrange(0, n as int) =~= cs@);
    while i < n && space(cs[i])
        invariant
            i <= n == cs@.len(),
            without_leading(cs@) == without_leading(cs@.subrange(i as int, n as int)),
        decreases n - i,
    {
        assert(cs@.subrange(i as int, n as int).drop_first() =~= cs@.subrange(i + 1, n as int));
        i = i + 1;
    }
    let mut j: usize = n;
    while j > i && space(cs[j - 1])
        invariant
            i <= j <= n == cs@.len(),
            without_trailing(cs@.subrange(i as int, n as int)) == without_trailing(
                cs@.subrange(i as int, j as int),
            ),
        decreases j,
    {
        assert(cs@.subrange(i as int, j as int).drop_last() =~= cs@.subrange(i as int, j - 1));
        j = j - 1;
    }
    text_of(&cs, i, j)
}

proof fn lemma_leading_clear(s: Seq<char>)
    ensures
        without_leading(s).len() > 0 ==> !is_space(without_leading(s)[0]),
        without_leading(s).len() <= s.len(),
    decreases s.len(),
{
    if s.len() > 0 && is_space(s[0]) {
        lemma_leading_clear(s.drop_first());
    }
}

proof fn lemma_trailing_clear(s: Seq<char>)
    ensures
        without_trailing(s).len() > 0 ==> !is_space(without_trailing(s).last()),
        without_trailing(s).len() <= s.len(),
        without_trailing(s) =~= s.take(without_trailing(s).len() as int),
    decreases s.len(),
{
    if s.len() > 0 && is_space(s.last()) {
        lemma_trailing_clear(s.drop_last());
    }
}

/// A trimmed text neither starts nor ends with white space, and trimming it
/// again changes nothing.
pub proof fn law_trim_settles(s: Seq<char>)
    ensures
        trimmed(s).len() > 0 ==> !is_space(trimmed(s)[0]) && !is_space(trimmed(s).last()),
        trimmed(trimmed(s)) == trimmed(s),
{
    lemma_leading_clear(s);
    lemma_trailing_clear(without_leading(s));
}

/// Whether two texts hold the same characters.
pub fn same(a: &str, b: &str) -> (r: bool)
    ensures
        r == (a@ == b@),
{
    let ab = a.as_bytes();
    let bb = b.as_bytes();
    proof {
        vstd::utf8::encode_utf8_decode_utf8(a@);
        vstd::utf8::encode_utf8_decode_utf8(b@);
    }
    if ab.len() != bb.len() {
        return false;
    }
    let mut i: usize = 0;
    while i < ab.len()
        invariant
            ab@ == vstd::utf8::encode_utf8(a@),
            bb@ == vstd::utf8::encode_utf8(b@),
            ab@.len() == bb@.len(),
            i <= ab@.len(),
            forall|k: int| 0 <= k < i ==> ab@[k] == bb@[k],
        decreases ab@.len() - i,
    {
        if ab[i] != bb[i] {
            return false;
        }
        i = i + 1;
    }
    assert(ab@ =~= bb@);
    true
}

pub open spec fn starts_with_spec(s: Seq<char>, p: Seq<char>) -> bool {
    p.len() <= s.len() && s.take(p.len() as int) == p
}

pub open spec fn ends_with_spec(s: Seq<char>, p: Seq<char>) -> bool {
    p.len() <= s.len() && s.skip(s.len() - p.len()) == p
}

/// Whether the characters from `at` on are those of `p`.
fn stands_at(s: &Vec<char>, p: &Vec<char>, at: usize) -> (r: bool)
    ensures
        r == (at + p@.len() <= s@.len() && s@.subrange(at as int, at + p@.len()) == p@),
{
    if at > s.len() || p.len() > s.len() - at {
        return false;
    }
    let n = s.len();
    let mut i: usize = 0;
    while i < p.len()
        invariant
            i <= p@.len(),
            at + p@.len() <= s@.len() == n,
            s@.subrange(at as int, at + i) =~= p@.take(i as int),
        decreases p@.len() - i,
    {
        if s[at + i] != p[i] {
            assert(s@.subrange(at as int, at + p@.len())[i as int] != p@[i as int]);
            return false;
        }
        i = i + 1;
    }
    assert(p@.take(p@.len() as int) =~= p@);
    true
}

/// Whether the text starts with `p`.
pub fn starts_with(s: &str, p: &str) -> (r: bool)
    ensures
        r == starts_with_spec(s@, p@),
{
    let sc = chars_of(s);
    let pc = chars_of(p);
    proof {
        if p@.len() <= s@.len() {
            assert(s@.subrange(0, 0int + p@.len()) =~= s@.take(p@.len() as int));
        }
    }
    stands_at(&sc, &pc, 0)
}

/// Whether the text ends with `p`.
pub fn ends_with(s: &str, p: &str) -> (r: bool)
    ensures
        r == ends_with_spec(s@, p@),
{
    let sc = chars_of(s);
    let pc = chars_of(p);
    if pc.len() > sc.len() {
        return false;
    }
    assert(s@.subrange(s@.len() - p@.len(), s@.len() as int) =~= s@.skip(s@.len() - p@.len()));
    stands_at(&sc, &pc, sc.len() - pc.len())
}

/// What follows the prefix `p`, where the text starts with it.
pub open spec fn after_prefix(s: Seq<char>, p: Seq<char>) -> Option<Seq<char>> {
    if starts_with_spec(s, p) {
        Some(s.skip(p.len() as int))
    } else {
        None
    }
}

pub fn strip_prefix(s: &str, p: &str) -> (r: Option<String>)
    ensures
        opt_text(r) == after_prefix(s@, p@),
{
    if starts_with(s, p) {
        let sc = chars_of(s);
        let pc = chars_of(p);
        assert(s@.skip(p@.len() as int) =~= s@.subrange(p@.len() as int, s@.len() as int));
        Some(text_of(&sc, pc.len(), sc.len()))
    } else {
        None
    }
}

pub open spec fn opt_text(o: Option<String>) -> Option<Seq<char>> {
    match o {
        Some(s) => Some(s@),
        None => None,
    }
}

/// The text with `p` taken off its end as often as it stands there.
pub open spec fn without_suffixes(s: Seq<char>, p: Seq<char>) -> Seq<char>
    decreases s.len(),
{
    if p.len() > 0 && ends_with_spec(s, p) {
        without_suffixes(s.take(s.len() - p.len()), p)
    } else {
        s
    }
}

pub fn strip_suffixes(s: &str, p: &str) -> (r: String)
    requires
        p@.len() > 0,
    ensures
        r@ == without_suffixes(s@, p@),
{
    let sc = chars_of(s);
    let pc = chars_of(p);
    let mut n: usize = sc.len();
    assert(s@.take(s@.len() as int) =~= s@);
    while pc.len() <= n && stands_at(&sc, &pc, n - pc.len())
        invariant
            n <= sc@.len(),
            sc@ == s@,
            pc@ == p@,
            p@.len() > 0,
            without_suffixes(s@, p@) == without_suffixes(s@.take(n as int), p@),
        decreases n,
    {
        let ghost t = s@.take(n as int);
        assert(t.skip(t.len() - p@.len()) =~= s@.subrange(n - p@.len(), n as int));
        assert(t.take(t.len() - p@.len()) =~= s@.take(n - p@.len()));
        n = n - pc.len();
    }
    proof {
        let t = s@.take(n as int);
        if p@.len() <= n {
            assert(t.skip(t.len() - p@.len()) =~= s@.subrange(n - p@.len(), n as int));
        }
    }
    assert(sc@.subrange(0, n as int) =~= s@.take(n as int));
    text_of(&sc, 0, n)
}

/// The first place from `from` on where `p` stands in `s`.
pub open spec fn first_place(s: Seq<char>, p: Seq<char>, from: int) -> Option<int>
    decreases s.len() - from + 1,
{
    if from < 0 || from + p.len() > s.len() {
        None
    } else if s.subrange(from, from + p.len()) == p {
        Some(from)
    } else {
        first_place(s, p, from + 1)
    }
}

/// What follows the first `p` in the text, or the whole text where there is
/// none.
pub open spec fn after_first(s: Seq<char>, p: Seq<char>) -> Seq<char> {
    match first_place(s, p, 0) {
        Some(i) => s.skip(i + p.len()),
        None => s,
    }
}

pub fn text_after(s: &str, p: &str) -> (r: String)
    ensures
        r@ == after_first(s@, p@),
{
    let sc = chars_of(s);
    let pc = chars_of(p);
    let n = sc.len();
    if pc.len() <= n {
        let last = n - pc.len();
        let mut i: usize = 0;
        loop
            invariant
                sc@ == s@,
                pc@ == p@,
                i <= last,
                last + p@.len() == s@.len() == n,
                first_place(s@, p@, 0) == first_place(s@, p@, i as int),
            ensures
                first_place(s@, p@, 0) is None,
            decreases last - i,
        {
            if stands_at(&sc, &pc, i) {
                assert(s@.skip(i + p@.len()) =~= s@.subrange(i + p@.len(), s@.len() as int));
                return text_of(&sc, i + pc.len(), n);
            }
            if i == last {
                assert(first_place(s@, p@, i + 1) is None);
                break;
            }
            i = i + 1;
        }
    }
    assert(sc@.subrange(0, s@.len() as int) =~= s@);
    text_of(&sc, 0, sc.len())
}

/// The small letter for a capital letter of ASCII; any other character as it
/// is.
pub open spec fn small(c: char) -> char {
    if 'A' <= c <= 'Z' {
        (c as u8 + 32) as char
    } else {
        c
    }
}

/// The capital letter for a small letter of ASCII; any other character as it
/// is.
pub open spec fn capital(c: char) -> char {
    if 'a' <= c <= 'z' {
        (c as u8 - 32) as char
    } else {
        c
    }
}

pub open spec fn all_small(s: Seq<char>) -> Seq<char> {
    s.map_values(|c: char| small(c))
}

pub open spec fn all_capital(s: Seq<char>) -> Seq<char> {
    s.map_values(|c: char| capital(c))
}

/// The text with the capital letters of ASCII made small.
pub fn ascii_lower(s: &str) -> (r: String)
    ensures
        r@ == all_small(s@),
{
    let mut out = String::new();
    for c in it: s.chars()
        invariant
            it.seq() == s@,
            out@ =~= all_small(s@.take(it.index() as int)),
    {
        let d: char = if 'A' <= c && c <= 'Z' {
            (c as u8 + 32) as char
        } else {
            c
        };
        out.push(d);
    }
    assert(s@.take(s@.len() as int) =~= s@);
    out
}

/// The text with the small letters of ASCII made capital.
pub fn ascii_upper(s: &str) -> (r: String)
    ensures
        r@ == all_capital(s@),
{
    let mut out = String::new();
    for c in it: s.chars()
        invariant
            it.seq() == s@,
            out@ =~= all_capital(s@.take(it.index() as int)),
    {
        let d: char = if 'a' <= c && c <= 'z' {
            (c as u8 - 32) as char
        } else {
            c
        };
        out.push(d);
    }
    assert(s@.take(s@.len() as int) =~= s@);
    out
}

/// A text in small letters: letter by letter where it is plain ASCII, by the
/// tables of Unicode where it is not.
pub open spec fn lowered(s: Seq<char>) -> Seq<char> {
    if vstd::utf8::is_ascii_chars(s) {
        all_small(s)
    } else {
        outside::unicode_lowercase(s)
    }
}

pub fn lower(s: &str) -> (r: String)
    ensures
        r@ == lowered(s@),
{
    if s.is_ascii() {
        ascii_lower(s)
    } else {
        outside::unicode_lower(s)
    }
}

/// The order of texts, character by character: whether `a` stands before `b`
/// or is the same.
pub open spec fn in_order(a: Seq<char>, b: Seq<char>) -> bool
    decreases a.len(),
{
    if a.len() == 0 {
        true
    } else if b.len() == 0 {
        false
    } else if a[0] == b[0] {
        in_order(a.drop_first(), b.drop_first())
    } else {
        a[0] < b[0]
    }
}

pub proof fn lemma_in_order_same(a: Seq<char>)
    ensures
        in_order(a, a),
    decreases a.len(),
{
    if a.len() > 0 {
        lemma_in_order_same(a.drop_first());
    }
}

/// Of two texts one stands before the other.
pub proof fn lemma_in_order_total(a: Seq<char>, b: Seq<char>)
    ensures
        in_order(a, b) || in_order(b, a),
    decreases a.len(),
{
    if a.len() > 0 && b.len() > 0 && a[0] == b[0] {
        lemma_in_order_total(a.drop_first(), b.drop_first());
    }
}

pub proof fn lemma_in_order_through(a: Seq<char>, b: Seq<char>, c: Seq<char>)
    requires
        in_order(a, b),
        in_order(b, c),
    ensures
        in_order(a, c),
    decreases a.len(),
{
    if a.len() > 0 && b.len() > 0 && c.len() > 0 && a[0] == b[0] && b[0] == c[0] {
        lemma_in_order_through(a.drop_first(), b.drop_first(), c.drop_first());
    }
}

pub proof fn lemma_in_order_both(a: Seq<char>, b: Seq<char>)
    requires
        in_order(a, b),
        in_order(b, a),
    ensures
        a == b,
    decreases a.len(),
{
    if a.len() > 0 && b.len() > 0 {
        lemma_in_order_both(a.drop_first(), b.drop_first());
        assert(a =~= seq![a[0]] + a.drop_first());
        assert(b =~= seq![b[0]] + b.drop_first());
    } else {
        assert(a =~= b);
    }
}

/// Whether `a` stands before `b` or is the same.
pub fn ordered(a: &str, b: &str) -> (r: bool)
    ensures
        r == in_order(a@, b@),
{
    let ac = chars_of(a);
    let bc = chars_of(b);
    let mut i: usize = 0;
    assert(a@.skip(0) =~= a@);
    assert(b@.skip(0) =~= b@);
    while i < ac.len() && i < bc.len()
        invariant
            ac@ == a@,
            bc@ == b@,
            i <= a@.len(),
            i <= b@.len(),
            in_order(a@, b@) == in_order(a@.skip(i as int), b@.skip(i as int)),
        decreases a@.len() - i,
    {
        if ac[i] != bc[i] {
            return ac[i] < bc[i];
        }
        assert(a@.skip(i as int).drop_first() =~= a@.skip(i + 1));
        assert(b@.skip(i as int).drop_first() =~= b@.skip(i + 1));
        i = i + 1;
    }
    i == ac.len()
}

/// What the texts of a list say.
pub open spec fn texts(v: Seq<String>) -> Seq<Seq<char>> {
    v.map_values(|s: String| s@)
}

/// Where a text is cut into pieces.
#[derive(Clone, Copy)]
pub enum Cut {
    /// At the end of a line.
    Line,
    /// At the end of a line and at a comma.
    LineOrComma,
    /// At a comma and at white space.
    CommaOrSpace,
}

impl Cut {
    pub open spec fn at(self, c: char) -> bool {
        match self {
            Cut::Line => c == '\n',
            Cut::LineOrComma => c == '\n' || c == ',',
            Cut::CommaOrSpace => c == ',' || is_space(c),
        }
    }

    fn cuts(self, c: char) -> (r: bool)
        ensures
            r == self.at(c),
    {
        match self {
            Cut::Line => c == '\n',
            Cut::LineOrComma => c == '\n' || c == ',',
            Cut::CommaOrSpace => c == ',' || space(c),
        }
    }
}

/// The pieces between the cuts, empty ones with the rest.
pub open spec fn pieces(s: Seq<char>, cut: Cut) -> Seq<Seq<char>>
    decreases s.len(),
{
    if s.len() == 0 {
        seq![Seq::<char>::empty()]
    } else {
        let before = pieces(s.drop_last(), cut);
        if cut.at(s.last()) {
            before.push(Seq::<char>::empty())
        } else {
            before.drop_last().push(before.last().push(s.last()))
        }
    }
}

/// The text cut into pieces.
pub fn split(s: &str, cut: Cut) -> (r: Vec<String>)
    ensures
        texts(r@) == pieces(s@, cut),
{
    let mut done: Vec<String> = Vec::new();
    let mut piece = String::new();
    assert(texts(done@).push(piece@) =~= pieces(s@.take(0), cut));
    for c in it: s.chars()
        invariant
            it.seq() == s@,
            texts(done@).push(piece@) =~= pieces(s@.take(it.index() as int), cut),
    {
        let ghost i = it.index() as int;
        let ghost before = pieces(s@.take(i), cut);
        assert(s@.take(i + 1).drop_last() =~= s@.take(i));
        assert(before.drop_last() =~= texts(done@));
        if cut.cuts(c) {
            done.push(piece);
            piece = String::new();
            assert(texts(done@) =~= before);
        } else {
            piece.push(c);
        }
    }
    assert(s@.take(s@.len() as int) =~= s@);
    done.push(piece);
    assert(texts(done@) =~= pieces(s@, cut));
    done
}

/// The texts one after another with `sep` between them.
pub open spec fn joined(parts: Seq<Seq<char>>, sep: Seq<char>) -> Seq<char>
    decreases parts.len(),
{
    if parts.len() == 0 {
        Seq::<char>::empty()
    } else {
        let before = joined(parts.drop_last(), sep);
        if parts.len() == 1 {
            parts[0]
        } else {
            before + sep + parts.last()
        }
    }
}

pub fn join(parts: &Vec<String>, sep: &str) -> (r: String)
    ensures
        r@ == joined(texts(parts@), sep@),
{
    let mut out = String::new();
    let mut i: usize = 0;
    while i < parts.len()
        invariant
            i <= parts@.len(),
            out@ =~= joined(texts(parts@).take(i as int), sep@),
        decreases parts@.len() - i,
    {
        assert(texts(parts@).take(i + 1).drop_last() =~= texts(parts@).take(i as int));
        if i > 0 {
            out.append(sep);
        }
        out.append(parts[i].as_str());
        i = i + 1;
    }
    assert(texts(parts@).take(i as int) =~= texts(parts@));
    out
}

/// Two texts, one after the other.
pub fn cat(a: &str, b: &str) -> (r: String)
    ensures
        r@ == a@ + b@,
{
    let mut out = a.to_owned();
    out.append(b);
    out
}

/// Three texts, one after another.
pub fn cat3(a: &str, b: &str, c: &str) -> (r: String)
    ensures
        r@ == a@ + b@ + c@,
{
    let mut out = a.to_owned();
    out.append(b);
    out.append(c);
    out
}

/// Whether the text is one of the words of the list.
pub fn one_of(s: &str, words: &Vec<String>) -> (r: bool)
    ensures
        r == texts(words@).contains(s@),
{
    let mut i: usize = 0;
    while i < words.len()
        invariant
            i <= words@.len(),
            forall|k: int| 0 <= k < i ==> texts(words@)[k] != s@,
        decreases words@.len() - i,
    {
        if same(words[i].as_str(), s) {
            assert(texts(words@)[i as int] == s@);
            return true;
        }
        i = i + 1;
    }
    false
}

/// White space is what Unicode calls so: tab to carriage return, the space,
/// and fifteen and more others, by their numbers.
pub proof fn law_white_space(c: char)
    ensures
        is_space(c) <==> {
            let n = c as u32;
            ||| 0x9 <= n <= 0xd
            ||| n == 0x20
            ||| n == 0x85
            ||| n == 0xa0
            ||| n == 0x1680
            ||| 0x2000 <= n <= 0x200a
            ||| n == 0x2028
            ||| n == 0x2029
            ||| n == 0x202f
            ||| n == 0x205f
            ||| n == 0x3000
        },
{
}

proof fn lemma_leading_part(s: Seq<char>) -> (i: int)
    ensures
        0 <= i <= s.len(),
        without_leading(s) == s.skip(i),
        forall|k: int| 0 <= k < i ==> is_space(#[trigger] s[k]),
        i < s.len() ==> !is_space(s[i]),
    decreases s.len(),
{
    if s.len() > 0 && is_space(s[0]) {
        let rest = s.drop_first();
        let i = lemma_leading_part(rest);
        assert forall|k: int| 0 <= k < i + 1 implies is_space(#[trigger] s[k]) by {
            if k > 0 {
                assert(rest[k - 1] == s[k]);
            }
        }
        assert(rest.skip(i) =~= s.skip(i + 1));
        if i + 1 < s.len() {
            assert(rest[i] == s[i + 1]);
        }
        i + 1
    } else {
        assert(s.skip(0) =~= s);
        0
    }
}

proof fn lemma_trailing_part(s: Seq<char>) -> (j: int)
    ensures
        0 <= j <= s.len(),
        without_trailing(s) == s.take(j),
        forall|k: int| j <= k < s.len() ==> is_space(#[trigger] s[k]),
        j > 0 ==> !is_space(s[j - 1]),
    decreases s.len(),
{
    if s.len() > 0 && is_space(s.last()) {
        let front = s.drop_last();
        let j = lemma_trailing_part(front);
        assert forall|k: int| j <= k < s.len() implies is_space(#[trigger] s[k]) by {
            if k < front.len() {
                assert(front[k] == s[k]);
            }
        }
        assert(front.take(j) =~= s.take(j));
        j
    } else {
        assert(s.take(s.len() as int) =~= s);
        s.len() as int
    }
}

/// Trimming takes white space off both ends and nothing else: what is left is
/// a stretch of the text, around it stands nothing but white space, and it
/// neither starts nor ends with any.
pub proof fn law_trimmed(s: Seq<char>) -> (r: (int, int))
    ensures
        0 <= r.0 <= r.1 <= s.len(),
        trimmed(s) == s.subrange(r.0, r.1),
        forall|k: int| 0 <= k < r.0 ==> is_space(#[trigger] s[k]),
        forall|k: int| r.1 <= k < s.len() ==> is_space(#[trigger] s[k]),
        r.0 < r.1 ==> !is_space(s[r.0]) && !is_space(s[r.1 - 1]),
{
    let i = lemma_leading_part(s);
    let rest = s.skip(i);
    let j = lemma_trailing_part(rest);
    assert(rest.take(j) =~= s.subrange(i, i + j));
    assert forall|k: int| i + j <= k < s.len() implies is_space(#[trigger] s[k]) by {
        assert(rest[k - i] == s[k]);
    }
    if j > 0 {
        assert(rest[j - 1] == s[i + j - 1]);
        if is_space(s[i]) {
            assert(i < s.len());
        }
    }
    (i, i + j)
}

/// A text without white space at its ends is trimmed as it is.
pub proof fn law_trimmed_as_is(s: Seq<char>)
    requires
        s.len() > 0 ==> !is_space(s[0]) && !is_space(s.last()),
    ensures
        trimmed(s) == s,
{
}

/// White space around a text does not change how it is trimmed.
pub proof fn law_trim_drops_space(s: Seq<char>, c: char)
    requires
        is_space(c),
    ensures
        trimmed(s.push(c)) == trimmed(s),
        trimmed(seq![c] + s) == trimmed(s),
{
    let left = seq![c] + s;
    assert(left.drop_first() =~= s);
    assert(without_leading(left) == without_leading(s));
    lemma_leading_push(s, c);
}

proof fn lemma_leading_push(s: Seq<char>, c: char)
    requires
        is_space(c),
    ensures
        without_trailing(without_leading(s.push(c))) == without_trailing(without_leading(s)),
    decreases s.len(),
{
    let t = s.push(c);
    if s.len() == 0 {
        assert(t.drop_first() =~= s);
    } else if is_space(s[0]) {
        assert(t.drop_first() =~= s.drop_first().push(c));
        lemma_leading_push(s.drop_first(), c);
    } else {
        assert(without_leading(t) == t);
        assert(t.drop_last() =~= s);
    }
}

/// In plain ASCII the capital letters become small and all else stays.
pub proof fn law_lowered(s: Seq<char>, i: int)
    requires
        forall|k: int| 0 <= k < s.len() ==> '\0' <= #[trigger] s[k] <= '\u{7f}',
        0 <= i < s.len(),
    ensures
        lowered(s).len() == s.len(),
        'A' <= s[i] <= 'Z' ==> lowered(s)[i] as int == s[i] as int + 32,
        !('A' <= s[i] <= 'Z') ==> lowered(s)[i] == s[i],
{
    lemma_small(s[i]);
}

proof fn lemma_small(c: char)
    ensures
        'A' <= c <= 'Z' ==> small(c) as int == c as int + 32,
        'a' <= c <= 'z' ==> capital(c) as int == c as int - 32,
{
}

/// The letters of ASCII change their case and all else stays.
pub proof fn law_case(s: Seq<char>, i: int)
    requires
        0 <= i < s.len(),
    ensures
        all_small(s).len() == s.len(),
        all_capital(s).len() == s.len(),
        'A' <= s[i] <= 'Z' ==> all_small(s)[i] as int == s[i] as int + 32,
        !('A' <= s[i] <= 'Z') ==> all_small(s)[i] == s[i],
        'a' <= s[i] <= 'z' ==> all_capital(s)[i] as int == s[i] as int - 32,
        !('a' <= s[i] <= 'z') ==> all_capital(s)[i] == s[i],
{
    lemma_small(s[i]);
}

/// A text is a prefix of whatever it stands before, and what follows is the
/// rest.
pub proof fn law_prefix(p: Seq<char>, s: Seq<char>)
    ensures
        starts_with_spec(p + s, p),
        after_prefix(p + s, p) == Some(s),
        ends_with_spec(s + p, p),
        starts_with_spec(s, p) ==> s == p + s.skip(p.len() as int),
        ends_with_spec(s, p) ==> s == s.take(s.len() - p.len()) + p,
        after_prefix(s, p) is Some ==> s == p + after_prefix(s, p)->0,
        after_prefix(s, p) is None ==> forall|t: Seq<char>| s != #[trigger] (p + t),
{
    assert((p + s).take(p.len() as int) =~= p);
    assert((p + s).skip(p.len() as int) =~= s);
    assert((s + p).skip(s.len() as int) =~= p);
    if starts_with_spec(s, p) {
        assert(s =~= p + s.skip(p.len() as int));
    }
    if ends_with_spec(s, p) {
        assert(s =~= s.take(s.len() - p.len()) + p);
    }
    if after_prefix(s, p) is None {
        assert forall|t: Seq<char>| s != #[trigger] (p + t) by {
            if s == p + t {
                assert(s.take(p.len() as int) =~= p);
            }
        }
    }
}

/// An ending is taken off as often as it stands at the end.
pub proof fn law_suffixes_go(s: Seq<char>, p: Seq<char>)
    requires
        p.len() > 0,
    ensures
        without_suffixes(s + p, p) == without_suffixes(s, p),
        !ends_with_spec(s, p) ==> without_suffixes(s, p) == s,
{
    assert((s + p).skip(s.len() as int) =~= p);
    assert((s + p).take(s.len() as int) =~= s);
}

/// What follows the first place of a text in another; all of it where it has
/// no place there.
pub proof fn law_after_first(a: Seq<char>, p: Seq<char>, b: Seq<char>)
    requires
        forall|i: int|
            0 <= i < a.len() ==> #[trigger] (a + p + b).subrange(i, i + p.len()) != p,
    ensures
        after_first(a + p + b, p) == b,
{
    let s = a + p + b;
    lemma_first_place(s, p, 0, a.len() as int);
    assert(s.skip(a.len() as int + p.len()) =~= b);
}

proof fn lemma_first_place(s: Seq<char>, p: Seq<char>, from: int, at: int)
    requires
        0 <= from <= at,
        at + p.len() <= s.len(),
        forall|i: int| from <= i < at ==> #[trigger] s.subrange(i, i + p.len()) != p,
        s.subrange(at, at + p.len()) =~= p,
    ensures
        first_place(s, p, from) == Some(at),
    decreases at - from,
{
    if from < at {
        assert(s.subrange(from, from + p.len()) != p);
        lemma_first_place(s, p, from + 1, at);
    }
}

/// A text in which another has no place is left whole.
pub proof fn law_after_nothing(s: Seq<char>, p: Seq<char>)
    requires
        forall|i: int|
            0 <= i <= s.len() - p.len() ==> #[trigger] s.subrange(i, i + p.len()) != p,
    ensures
        after_first(s, p) == s,
{
    lemma_no_place(s, p, 0);
}

proof fn lemma_no_place(s: Seq<char>, p: Seq<char>, from: int)
    requires
        0 <= from,
        forall|i: int|
            0 <= i <= s.len() - p.len() ==> #[trigger] s.subrange(i, i + p.len()) != p,
    ensures
        first_place(s, p, from) is None,
    decreases s.len() - from + 1,
{
    if from + p.len() <= s.len() {
        assert(s.subrange(from, from + p.len()) != p);
        lemma_no_place(s, p, from + 1);
    }
}

/// Texts are ordered by the first character in which they differ; a text
/// stands before all that it starts.
pub proof fn law_in_order(p: Seq<char>, a: Seq<char>, b: Seq<char>)
    ensures
        in_order(p, p + a),
        a.len() > 0 ==> !in_order(p + a, p),
        a.len() > 0 && b.len() > 0 && a[0] < b[0] ==> in_order(p + a, p + b)
            && !in_order(p + b, p + a),
    decreases p.len(),
{
    if p.len() == 0 {
        assert(p + a =~= a);
        assert(p + b =~= b);
    } else {
        law_in_order(p.drop_first(), a, b);
        assert((p + a).drop_first() =~= p.drop_first() + a);
        assert((p + b).drop_first() =~= p.drop_first() + b);
    }
}

/// Whether a text is cut at a character.
pub open spec fn cuts_at(cut: Cut, c: char) -> bool {
    match cut {
        Cut::Line => c == '\u{a}',
        Cut::LineOrComma => c == '\u{a}' || c == '\u{2c}',
        Cut::CommaOrSpace => c == '\u{2c}' || is_space(c),
    }
}

/// A text is cut at the ends of lines, at commas or at white space: the pieces
/// of two texts with a cut between them are those of the one and those of the
/// other, and a text without a cut is one piece.
pub proof fn law_pieces(a: Seq<char>, c: char, b: Seq<char>, cut: Cut)
    ensures
        cuts_at(cut, c) ==> pieces(a.push(c) + b, cut) == pieces(a, cut) + pieces(b, cut),
        (forall|i: int| 0 <= i < a.len() ==> !cuts_at(cut, #[trigger] a[i])) ==> pieces(a, cut)
            == seq![a],
    decreases b.len(),
{
    if cuts_at(cut, c) {
        let s = a.push(c) + b;
        if b.len() == 0 {
            assert(s =~= a.push(c));
            assert(s.drop_last() =~= a);
            assert(pieces(s, cut) =~= pieces(a, cut) + pieces(b, cut));
        } else {
            law_pieces(a, c, b.drop_last(), cut);
            assert(s.drop_last() =~= a.push(c) + b.drop_last());
            let before = pieces(b.drop_last(), cut);
            lemma_pieces_some(b.drop_last(), cut);
            let all = pieces(a, cut) + before;
            assert(all.drop_last() =~= pieces(a, cut) + before.drop_last());
            assert(all.last() == before.last());
            assert(pieces(s, cut) =~= pieces(a, cut) + pieces(b, cut));
        }
    }
    if forall|i: int| 0 <= i < a.len() ==> !cuts_at(cut, #[trigger] a[i]) {
        lemma_one_piece(a, cut);
    }
}

proof fn lemma_pieces_some(s: Seq<char>, cut: Cut)
    ensures
        pieces(s, cut).len() > 0,
    decreases s.len(),
{
    if s.len() > 0 {
        lemma_pieces_some(s.drop_last(), cut);
    }
}

proof fn lemma_one_piece(a: Seq<char>, cut: Cut)
    requires
        forall|i: int| 0 <= i < a.len() ==> !cuts_at(cut, #[trigger] a[i]),
    ensures
        pieces(a, cut) == seq![a],
    decreases a.len(),
{
    if a.len() == 0 {
        assert(a =~= Seq::<char>::empty());
    } else {
        let front = a.drop_last();
        assert forall|i: int| 0 <= i < front.len() implies !cuts_at(cut, #[trigger] front[i]) by {
            assert(front[i] == a[i]);
        }
        lemma_one_piece(front, cut);
        assert(!cuts_at(cut, a[a.len() - 1]));
        assert(front.push(a.last()) =~= a);
        assert(pieces(a, cut) =~= seq![a]);
    }
}

/// Texts joined: one alone stands as it is, and each further one follows
/// behind the separator.
pub proof fn law_joined(parts: Seq<Seq<char>>, s: Seq<char>, sep: Seq<char>)
    ensures
        joined(Seq::<Seq<char>>::empty(), sep).len() == 0,
        joined(seq![s], sep) == s,
        parts.len() > 0 ==> joined(parts.push(s), sep) == joined(parts, sep) + sep + s,
{
    assert(parts.push(s).drop_last() =~= parts);
}

/// A text that holds other letters than those of ASCII is put in small letters
/// as Unicode has it.
pub proof fn law_lowered_widely(s: Seq<char>, i: int)
    requires
        0 <= i < s.len(),
        s[i] > '\u{7f}',
    ensures
        lowered(s) == outside::unicode_lowercase(s),
{
    assert(!vstd::utf8::is_ascii_chars(s));
}

} // verus!
