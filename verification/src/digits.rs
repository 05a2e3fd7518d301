//! Numbers as text, and text as numbers.
use crate::text;
use vstd::prelude::*;

verus! {

/// The digit for a number below ten.
pub open spec fn digit(n: nat) -> char {
    (48 + n) as u8 as char
}

pub open spec fn is_digit(c: char) -> bool {
    '0' <= c <= '9'
}

/// What a digit stands for.
pub open spec fn worth(c: char) -> nat {
    (c as u8 - 48) as nat
}

/// A number in decimal digits, without leading zeros.
pub open spec fn decimal(n: nat) -> Seq<char>
    decreases n,
{
    if n < 10 {
        seq![digit(n)]
    } else {
        decimal(n / 10).push(digit(n % 10))
    }
}

/// The number in decimal digits.
pub fn number_text(n: u128) -> (r: String)
    ensures
        r@ == decimal(n as nat),
    decreases n,
{
    if n < 10 {
        let mut out = String::new();
        out.push((48 + n as u8) as char);
        assert(out@ =~= decimal(n as nat));
        out
    } else {
        let mut out = number_text(n / 10);
        out.push((48 + (n % 10) as u8) as char);
        out
    }
}

/// A number in decimal digits, with a minus sign where it is below zero.
pub open spec fn signed_decimal(n: int) -> Seq<char> {
    if n < 0 {
        seq!['-'] + decimal((-n) as nat)
    } else {
        decimal(n as nat)
    }
}

/// The number in decimal digits, with its sign.
pub fn signed_text(n: i64) -> (r: String)
    ensures
        r@ == signed_decimal(n as int),
{
    if n < 0 {
        let m: u128 = (-(n as i128)) as u128;
        let mut out = String::new();
        out.push('-');
        let rest = number_text(m);
        let whole = text::cat(out.as_str(), rest.as_str());
        assert(whole@ =~= signed_decimal(n as int));
        whole
    } else {
        number_text(n as u128)
    }
}

pub open spec fn all_digits(s: Seq<char>) -> bool {
    forall|i: int| 0 <= i < s.len() ==> is_digit(#[trigger] s[i])
}

/// What a row of digits stands for.
pub open spec fn value_of(s: Seq<char>) -> nat
    decreases s.len(),
{
    if s.len() == 0 {
        0
    } else {
        value_of(s.drop_last()) * 10 + worth(s.last())
    }
}

/// The number that a row of digits stands for, where it is one.
pub open spec fn read_digits(s: Seq<char>) -> Option<nat> {
    if s.len() > 0 && all_digits(s) {
        Some(value_of(s))
    } else {
        None
    }
}

/// The number that a text stands for: digits, with or without a plus sign.
pub open spec fn read_unsigned(s: Seq<char>) -> Option<u64> {
    let digits = if s.len() > 0 && s[0] == '+' {
        s.drop_first()
    } else {
        s
    };
    match read_digits(digits) {
        Some(n) if n <= u64::MAX => Some(n as u64),
        _ => None,
    }
}

/// The number that a text stands for: digits, with or without a sign.
pub open spec fn read_signed(s: Seq<char>) -> Option<i64> {
    if s.len() > 0 && s[0] == '-' {
        match read_digits(s.drop_first()) {
            Some(n) if n <= -i64::MIN => Some((-n) as i64),
            _ => None,
        }
    } else {
        let digits = if s.len() > 0 && s[0] == '+' {
            s.drop_first()
        } else {
            s
        };
        match read_digits(digits) {
            Some(n) if n <= i64::MAX => Some(n as i64),
            _ => None,
        }
    }
}

proof fn lemma_value_grows(s: Seq<char>, i: int)
    requires
        0 <= i <= s.len(),
    ensures
        value_of(s.take(i)) <= value_of(s),
    decreases s.len() - i,
{
    if i == s.len() {
        assert(s.take(i) =~= s);
    } else {
        assert(s.take(i + 1).drop_last() =~= s.take(i));
        lemma_value_grows(s, i + 1);
    }
}

/// The number that the characters from `from` on stand for, where they are
/// digits and it is at most `most`.
fn read_from(cs: &Vec<char>, from: usize, most: u64) -> (r: Option<u64>)
    requires
        from <= cs@.len(),
    ensures
        match read_digits(cs@.skip(from as int)) {
            Some(n) if n <= most => r == Some(n as u64),
            _ => r is None,
        },
{
    let n = cs.len();
    let ghost s = cs@.skip(from as int);
    if from == n {
        return None;
    }
    let mut total: u64 = 0;
    let mut i: usize = from;
    while i < n
        invariant
            from <= i <= n == cs@.len(),
            s == cs@.skip(from as int),
            total <= most,
            total == value_of(s.take(i - from)),
            forall|k: int| 0 <= k < i - from ==> is_digit(#[trigger] s[k]),
        decreases n - i,
    {
        let c = cs[i];
        assert(c == s[i - from]);
        if !('0' <= c && c <= '9') {
            return None;
        }
        let d: u64 = (c as u8 - 48) as u64;
        assert(s.take(i - from + 1).drop_last() =~= s.take(i - from));
        assert(value_of(s.take(i - from + 1)) == total * 10 + d);
        proof {
            lemma_value_grows(s, i - from + 1);
        }
        if total > most / 10 || (total == most / 10 && d > most % 10) {
            assert(total * 10 + d > most);
            return None;
        }
        total = total * 10 + d;
        i = i + 1;
    }
    assert(s.take(s.len() as int) =~= s);
    Some(total)
}

/// The number that a text stands for, where it is one that fits.
pub fn parse_u64(s: &str) -> (r: Option<u64>)
    ensures
        r == read_unsigned(s@),
{
    let cs = text::chars_of(s);
    if cs.len() > 0 && cs[0] == '+' {
        assert(cs@.skip(1) =~= s@.drop_first());
        read_from(&cs, 1, u64::MAX)
    } else {
        assert(cs@.skip(0) =~= s@);
        read_from(&cs, 0, u64::MAX)
    }
}

/// The number that a text stands for, where it is one that fits.
pub fn parse_i64(s: &str) -> (r: Option<i64>)
    ensures
        r == read_signed(s@),
{
    let cs = text::chars_of(s);
    assert(cs@.skip(0) =~= s@);
    if cs.len() > 0 && (cs[0] == '-' || cs[0] == '+') {
        assert(cs@.skip(1) =~= s@.drop_first());
        if cs[0] == '-' {
            match read_from(&cs, 1, 9223372036854775808) {
                Some(n) => {
                    if n == 9223372036854775808 {
                        Some(i64::MIN)
                    } else {
                        Some(-(n as i64))
                    }
                },
                None => None,
            }
        } else {
            match read_from(&cs, 1, 9223372036854775807) {
                Some(n) => Some(n as i64),
                None => None,
            }
        }
    } else {
        match read_from(&cs, 0, 9223372036854775807) {
            Some(n) => Some(n as i64),
            None => None,
        }
    }
}

pub proof fn lemma_decimal_digits(n: nat)
    ensures
        decimal(n).len() > 0,
        all_digits(decimal(n)),
        value_of(decimal(n)) == n,
    decreases n,
{
    reveal_with_fuel(value_of, 2);
    if n < 10 {
        assert(decimal(n).drop_last() =~= Seq::<char>::empty());
    } else {
        lemma_decimal_digits(n / 10);
        assert(decimal(n).drop_last() =~= decimal(n / 10));
    }
}

/// A number that was written in decimal is read back as itself.
pub proof fn law_number_read_back(n: u64)
    ensures
        read_unsigned(decimal(n as nat)) == Some(n),
{
    lemma_decimal_digits(n as nat);
}

/// Different numbers are written differently.
pub proof fn law_decimal_distinct(a: nat, b: nat)
    requires
        a != b,
    ensures
        decimal(a) != decimal(b),
{
    lemma_decimal_digits(a);
    lemma_decimal_digits(b);
}

/// The hexadecimal digit for a number below sixteen.
pub open spec fn hex_digit(n: nat) -> char {
    if n < 10 {
        (48 + n) as u8 as char
    } else {
        (87 + n) as u8 as char
    }
}

/// The last `width` hexadecimal digits of a number, zeros in front.
pub open spec fn hex(n: nat, width: nat) -> Seq<char>
    decreases width,
{
    if width == 0 {
        Seq::<char>::empty()
    } else {
        hex(n / 16, (width - 1) as nat).push(hex_digit(n % 16))
    }
}

pub fn hex_text(n: u64, width: u64) -> (r: String)
    ensures
        r@ == hex(n as nat, width as nat),
    decreases width,
{
    if width == 0 {
        String::new()
    } else {
        let mut out = hex_text(n / 16, width - 1);
        let d: u8 = (n % 16) as u8;
        out.push(if d < 10 { (48 + d) as char } else { (87 + d) as char });
        out
    }
}

proof fn lemma_hex_step(a: nat, b: nat, width: nat)
    requires
        width > 0,
        hex(a, width) == hex(b, width),
    ensures
        a % 16 == b % 16,
        hex(a / 16, (width - 1) as nat) == hex(b / 16, (width - 1) as nat),
{
    let x = hex(a / 16, (width - 1) as nat);
    let y = hex(b / 16, (width - 1) as nat);
    assert(x.push(hex_digit(a % 16)).last() == y.push(hex_digit(b % 16)).last());
    assert(x =~= x.push(hex_digit(a % 16)).drop_last());
    assert(y =~= y.push(hex_digit(b % 16)).drop_last());
}

/// Six hexadecimal digits tell numbers apart that have no more.
pub proof fn law_hex_distinct(a: nat, b: nat)
    requires
        a < 0x100_0000,
        b < 0x100_0000,
        a != b,
    ensures
        hex(a, 6) != hex(b, 6),
{
    if hex(a, 6) == hex(b, 6) {
        lemma_hex_step(a, b, 6);
        lemma_hex_step(a / 16, b / 16, 5);
        lemma_hex_step(a / 16 / 16, b / 16 / 16, 4);
        lemma_hex_step(a / 16 / 16 / 16, b / 16 / 16 / 16, 3);
        lemma_hex_step(a / 16 / 16 / 16 / 16, b / 16 / 16 / 16 / 16, 2);
        lemma_hex_step(a / 16 / 16 / 16 / 16 / 16, b / 16 / 16 / 16 / 16 / 16, 1);
    }
}

/// What is written in hexadecimal digits is as long as asked, and holds
/// nothing but digits and small letters.
pub proof fn lemma_hex_digits(n: nat, width: nat)
    ensures
        hex(n, width).len() == width,
        forall|i: int|
            0 <= i < width ==> is_digit(#[trigger] hex(n, width)[i]) || 'a' <= hex(n, width)[i]
                <= 'f',
    decreases width,
{
    if width > 0 {
        lemma_hex_digits(n / 16, (width - 1) as nat);
    }
}

/// A number is written digit by digit: its last digit is the remainder by
/// ten, and what stands before it is the rest.
pub proof fn law_decimal(n: nat)
    ensures
        decimal(n).len() > 0,
        decimal(n).last() as int == 48 + n % 10,
        n < 10 ==> decimal(n).len() == 1,
        n >= 10 ==> decimal(n).drop_last() == decimal(n / 10),
{
    lemma_decimal_digits(n);
    if n >= 10 {
        assert(decimal(n).drop_last() =~= decimal(n / 10));
    }
}

/// A number with a sign is written and read back as itself.
pub proof fn law_signed_read_back(n: i64)
    ensures
        read_signed(signed_decimal(n as int)) == Some(n),
{
    let m: nat = if n < 0 {
        (-n) as nat
    } else {
        n as nat
    };
    lemma_decimal_digits(m);
    let d = decimal(m);
    assert(is_digit(d[0]));
    if n < 0 {
        assert((seq!['-'] + d).drop_first() =~= d);
    }
}

/// A text is read as a number only where it is a row of digits, with or
/// without a sign; one more digit makes it ten times as large and more, as
/// long as it fits.
pub proof fn law_read_signed(s: Seq<char>, c: char)
    requires
        s.len() > 0,
        forall|i: int| 0 <= i < s.len() ==> '0' <= #[trigger] s[i] <= '9',
    ensures
        '0' <= c <= '9' ==> read_signed(seq![c]) == Some((c as int - 48) as i64),
        '0' <= c <= '9' && (read_signed(s) matches Some(n) && n * 10 + (c as int - 48)
            <= i64::MAX) ==> read_signed(s.push(c)) == Some(
            (read_signed(s)->0 * 10 + (c as int - 48)) as i64,
        ),
        read_signed(seq!['+'] + s) == read_signed(s),
        read_signed(s) matches Some(n) ==> read_signed(seq!['-'] + s) == Some((-n) as i64),
        !('0' <= c <= '9') ==> read_signed(s.push(c)) is None,
{
    reveal_with_fuel(value_of, 2);
    assert(all_digits(s));
    assert((seq!['+'] + s).drop_first() =~= s);
    assert((seq!['-'] + s).drop_first() =~= s);
    assert(s.push(c).drop_last() =~= s);
    assert(s.push(c)[0] == s[0]);
    assert(is_digit(s[0]));
    let t = s.push(c);
    if '0' <= c <= '9' {
        assert(all_digits(t));
        assert(seq![c].drop_last() =~= Seq::<char>::empty());
        assert(all_digits(seq![c]));
    } else {
        assert(!is_digit(t[t.len() - 1]));
    }
}

/// No digits, no number: neither an empty text nor a sign alone is one.
pub proof fn law_no_number(s: Seq<char>)
    requires
        s.len() == 0 || (s.len() == 1 && !('0' <= s[0] <= '9')),
    ensures
        read_signed(s) is None,
        read_unsigned(s) is None,
{
    if s.len() == 1 {
        assert(!is_digit(s[0]));
        assert(s.drop_first() =~= Seq::<char>::empty());
    }
}

/// A hexadecimal number is written digit by digit, the digits above nine as
/// small letters.
pub proof fn law_hex(n: nat, width: nat)
    requires
        width > 0,
    ensures
        hex(n, width).len() == width,
        hex(n, width).last() as int == if n % 16 < 10 {
            48 + n % 16
        } else {
            87 + n % 16
        },
        hex(n, width).drop_last() == hex(n / 16, (width - 1) as nat),
{
    lemma_hex_digits(n, width);
    assert(hex(n, width).drop_last() =~= hex(n / 16, (width - 1) as nat));
}

/// A row of digits is read from the left: a further digit makes ten times as
/// much and the digit, as long as that fits; a row that does not fit is no
/// number, and neither is what it begins.
pub proof fn law_read_unsigned(s: Seq<char>, c: char)
    requires
        s.len() > 0,
        forall|i: int| 0 <= i < s.len() ==> '0' <= #[trigger] s[i] <= '9',
    ensures
        '0' <= c <= '9' ==> read_unsigned(seq![c]) == Some((c as int - 48) as u64),
        '0' <= c <= '9' ==> (read_unsigned(s) matches Some(n) ==> read_unsigned(s.push(c)) == if n * 10
            + (c as int - 48) <= u64::MAX {
            Some((n * 10 + (c as int - 48)) as u64)
        } else {
            None
        }),
        read_unsigned(s) is None ==> read_unsigned(s.push(c)) is None,
        read_unsigned(seq!['+'] + s) == read_unsigned(s),
        read_unsigned(seq!['-'] + s) is None,
        !('0' <= c <= '9') ==> read_unsigned(s.push(c)) is None,
{
    reveal_with_fuel(value_of, 2);
    assert(all_digits(s));
    assert((seq!['+'] + s).drop_first() =~= s);
    assert(s.push(c).drop_last() =~= s);
    assert(s.push(c)[0] == s[0]);
    assert(is_digit(s[0]));
    assert(!is_digit((seq!['-'] + s)[0]));
    let t = s.push(c);
    if '0' <= c <= '9' {
        assert(all_digits(t));
        assert(seq![c].drop_last() =~= Seq::<char>::empty());
        assert(all_digits(seq![c]));
    } else {
        assert(!is_digit(t[t.len() - 1]));
    }
}

/// A number that does not fit is none.
pub proof fn law_signed_limits(s: Seq<char>, c: char)
    requires
        s.len() > 0,
        forall|i: int| 0 <= i < s.len() ==> '0' <= #[trigger] s[i] <= '9',
        '0' <= c <= '9',
    ensures
        read_signed(s) matches Some(n) && n * 10 + (c as int - 48) > i64::MAX ==> read_signed(
            s.push(c),
        ) is None,
        read_signed(s) is None ==> read_signed(s.push(c)) is None,
        read_signed(seq!['-'] + s) is None ==> read_signed(seq!['-'] + s.push(c)) is None,
        read_signed(seq!['-'] + s) matches Some(n) ==> read_signed(seq!['-'] + s.push(c)) == if n * 10
            - (c as int - 48) >= i64::MIN {
            Some((n * 10 - (c as int - 48)) as i64)
        } else {
            None
        },
{
    reveal_with_fuel(value_of, 2);
    assert(all_digits(s));
    let t = s.push(c);
    assert(t.drop_last() =~= s);
    assert(all_digits(t));
    assert(is_digit(s[0]) && t[0] == s[0]);
    assert((seq!['-'] + s).drop_first() =~= s);
    assert((seq!['-'] + t).drop_first() =~= t);
}

/// What is read as a number is digits, behind at most one sign.
pub proof fn law_number_shape(s: Seq<char>)
    ensures
        read_signed(s) is Some ==> s.len() > 0 && ('0' <= s[0] <= '9' || ((s[0] == '-' || s[0]
            == '+') && s.len() > 1)) && forall|i: int|
            1 <= i < s.len() ==> '0' <= #[trigger] s[i] <= '9',
        read_unsigned(s) is Some ==> s.len() > 0 && ('0' <= s[0] <= '9' || (s[0] == '+' && s.len()
            > 1)) && forall|i: int| 1 <= i < s.len() ==> '0' <= #[trigger] s[i] <= '9',
{
    let rest = s.drop_first();
    if all_digits(rest) && s.len() > 0 {
        assert forall|i: int| 1 <= i < s.len() implies '0' <= #[trigger] s[i] <= '9' by {
            assert(rest[i - 1] == s[i]);
            assert(is_digit(rest[i - 1]));
        }
    }
    if all_digits(s) && s.len() > 0 {
        assert(is_digit(s[0]));
        assert forall|i: int| 1 <= i < s.len() implies '0' <= #[trigger] s[i] <= '9' by {
            assert(is_digit(s[i]));
        }
    }
}

/// A negative number is written with a hyphen before its digits.
pub proof fn law_signed_decimal(n: int)
    ensures
        n >= 0 ==> signed_decimal(n) == decimal(n as nat),
        n < 0 ==> signed_decimal(n) == seq!['-'] + decimal((-n) as nat),
{
}

} // verus!
