//! Text helpers with the semantics of the std functions the backend relies
//! on: integer `FromStr`, `str::trim`, and comma-separated lists.

use vstd::prelude::*;

verus! {

// ---------------------------------------------------------------------------
// Integer parsing (the semantics of Rust's integer `FromStr`)
// ---------------------------------------------------------------------------

pub open spec fn is_ascii_digit(c: char) -> bool {
    48 <= c as u32 <= 57
}

pub open spec fn digit_of(c: char) -> nat {
    (c as u32 - 48) as nat
}

pub open spec fn all_digits(s: Seq<char>) -> bool {
    forall|i: int| 0 <= i < s.len() ==> #[trigger] is_ascii_digit(s[i])
}

/// Value of a string of decimal digits.
pub open spec fn digits_value(s: Seq<char>) -> nat
    decreases s.len(),
{
    if s.len() == 0 {
        0
    } else {
        digits_value(s.drop_last()) * 10 + digit_of(s.last())
    }
}

/// A non-empty run of decimal digits, and its value.
pub open spec fn unsigned_digits(s: Seq<char>) -> Option<nat> {
    if s.len() > 0 && all_digits(s) {
        Some(digits_value(s))
    } else {
        None
    }
}

/// The number Rust's integer `FromStr` reads from `s` before its range
/// check: an optional `+` (or, for signed types, `-`) followed by at least
/// one ASCII digit, and nothing else.
pub open spec fn decimal_value(s: Seq<char>, signed: bool) -> Option<int> {
    if s.len() > 0 && s[0] == '+' {
        match unsigned_digits(s.drop_first()) {
            Some(v) => Some(v as int),
            None => None,
        }
    } else if signed && s.len() > 0 && s[0] == '-' {
        match unsigned_digits(s.drop_first()) {
            Some(v) => Some(-(v as int)),
            None => None,
        }
    } else {
        match unsigned_digits(s) {
            Some(v) => Some(v as int),
            None => None,
        }
    }
}

/// What `s.parse()` gives for an integer type with the bounds `min..=max`.
pub open spec fn parsed_int(s: Seq<char>, signed: bool, min: int, max: int) -> Option<int> {
    match decimal_value(s, signed) {
        Some(v) => if min <= v <= max {
            Some(v)
        } else {
            None
        },
        None => None,
    }
}

proof fn lemma_digits_value_grows(s: Seq<char>, k: int)
    requires
        0 <= k <= s.len(),
        all_digits(s),
    ensures
        digits_value(s) >= digits_value(s.take(k)),
    decreases s.len(),
{
    if k < s.len() {
        assert(s.drop_last().take(k) == s.take(k));
        lemma_digits_value_grows(s.drop_last(), k);
    } else {
        assert(s.take(k) == s);
    }
}

/// Read the digits of `s` from character `start` on. `None` when there are
/// none, when one is not a digit, or when the value exceeds `u128::MAX`.
fn scan_digits(s: &str, start: usize) -> (r: Option<u128>)
    requires
        start <= s@.len(),
    ensures
        match unsigned_digits(s@.subrange(start as int, s@.len() as int)) {
            Some(v) => if v <= u128::MAX {
                r == Some(v as u128)
            } else {
                r is None
            },
            None => r is None,
        },
{
    let len = s.unicode_len();
    let ghost tail = s@.subrange(start as int, len as int);
    if start == len {
        return None;
    }
    let mut acc: u128 = 0;
    let mut i = start;
    while i < len
        invariant
            start <= i <= len,
            len == s@.len(),
            tail == s@.subrange(start as int, len as int),
            all_digits(s@.subrange(start as int, i as int)),
            acc == digits_value(s@.subrange(start as int, i as int)),
        decreases len - i,
    {
        let c = s.get_char(i);
        let ghost prefix = s@.subrange(start as int, (i + 1) as int);
        assert(prefix.drop_last() == s@.subrange(start as int, i as int));
        assert(prefix.last() == c);
        assert(tail[i - start] == c);
        if !('0' <= c && c <= '9') {
            assert(!is_ascii_digit(tail[i - start]));
            return None;
        }
        let d = (c as u32 - 48) as u128;
        assert(all_digits(prefix));
        assert(prefix == tail.take(i + 1 - start));
        match acc.checked_mul(10) {
            Some(m) => match m.checked_add(d) {
                Some(v) => {
                    acc = v;
                },
                None => {
                    proof {
                        if all_digits(tail) {
                            lemma_digits_value_grows(tail, i + 1 - start);
                        }
                    }
                    return None;
                },
            },
            None => {
                proof {
                    if all_digits(tail) {
                        lemma_digits_value_grows(tail, i + 1 - start);
                    }
                }
                return None;
            },
        }
        i = i + 1;
    }
    Some(acc)
}

/// Sign and magnitude of a decimal integer, as read by Rust's `FromStr`.
fn scan_decimal(s: &str, signed: bool) -> (r: Option<(bool, u128)>)
    ensures
        match decimal_value(s@, signed) {
            Some(v) => if -u128::MAX <= v <= u128::MAX {
                r matches Some((neg, mag)) && v == (if neg {
                    -(mag as int)
                } else {
                    mag as int
                }) && (mag == 0 ==> !neg)
            } else {
                r is None
            },
            None => r is None,
        },
{
    let len = s.unicode_len();
    if len > 0 && s.get_char(0) == '+' {
        assert(s@.subrange(1, len as int) == s@.drop_first());
        match scan_digits(s, 1) {
            Some(m) => Some((false, m)),
            None => None,
        }
    } else if signed && len > 0 && s.get_char(0) == '-' {
        assert(s@.subrange(1, len as int) == s@.drop_first());
        match scan_digits(s, 1) {
            Some(m) => Some((m != 0, m)),
            None => None,
        }
    } else {
        assert(s@.subrange(0, len as int) == s@);
        match scan_digits(s, 0) {
            Some(m) => Some((false, m)),
            None => None,
        }
    }
}

/// `s.parse::<u32>().ok()`.
pub fn parse_u32(s: &str) -> (r: Option<u32>)
    ensures
        match r {
            Some(x) => parsed_int(s@, false, 0, u32::MAX as int) == Some(x as int),
            None => parsed_int(s@, false, 0, u32::MAX as int) is None,
        },
{
    match scan_decimal(s, false) {
        Some((_, m)) => if m <= u32::MAX as u128 {
            Some(m as u32)
        } else {
            None
        },
        None => None,
    }
}

/// `s.parse::<u64>().ok()`.
pub fn parse_u64(s: &str) -> (r: Option<u64>)
    ensures
        match r {
            Some(x) => parsed_int(s@, false, 0, u64::MAX as int) == Some(x as int),
            None => parsed_int(s@, false, 0, u64::MAX as int) is None,
        },
{
    match scan_decimal(s, false) {
        Some((_, m)) => if m <= u64::MAX as u128 {
            Some(m as u64)
        } else {
            None
        },
        None => None,
    }
}

/// `s.parse::<i64>().ok()`.
pub fn parse_i64(s: &str) -> (r: Option<i64>)
    ensures
        match r {
            Some(x) => parsed_int(s@, true, i64::MIN as int, i64::MAX as int) == Some(x as int),
            None => parsed_int(s@, true, i64::MIN as int, i64::MAX as int) is None,
        },
{
    match scan_decimal(s, true) {
        Some((neg, m)) => {
            if neg {
                if m <= 0x8000_0000_0000_0000u128 {
                    if m == 0x8000_0000_0000_0000u128 {
                        Some(i64::MIN)
                    } else {
                        Some(-(m as i64))
                    }
                } else {
                    None
                }
            } else if m <= i64::MAX as u128 {
                Some(m as i64)
            } else {
                None
            }
        },
        None => None,
    }
}

/// `s.parse::<i128>().ok()`.
pub fn parse_i128(s: &str) -> (r: Option<i128>)
    ensures
        match r {
            Some(x) => parsed_int(s@, true, i128::MIN as int, i128::MAX as int) == Some(x as int),
            None => parsed_int(s@, true, i128::MIN as int, i128::MAX as int) is None,
        },
{
    match scan_decimal(s, true) {
        Some((neg, m)) => {
            if neg {
                if m <= 0x8000_0000_0000_0000_0000_0000_0000_0000u128 {
                    if m == 0x8000_0000_0000_0000_0000_0000_0000_0000u128 {
                        Some(i128::MIN)
                    } else {
                        Some(-(m as i128))
                    }
                } else {
                    None
                }
            } else if m <= i128::MAX as u128 {
                Some(m as i128)
            } else {
                None
            }
        },
        None => None,
    }
}

} // verus!

verus! {

// ---------------------------------------------------------------------------
// Decimal rendering (the semantics of an unsigned integer's `to_string`)
// ---------------------------------------------------------------------------

/// The character of a decimal digit.
pub open spec fn digit_char(d: nat) -> char {
    (48 + d) as char
}

/// Decimal text of `n`: its digits, most significant first, with no
/// leading zero (a single `0` for zero).
pub open spec fn decimal_text(n: nat) -> Seq<char>
    decreases n,
{
    if n < 10 {
        seq![digit_char(n)]
    } else {
        decimal_text(n / 10).push(digit_char(n % 10))
    }
}

/// The one-character text of a digit.
fn digit_str(d: u64) -> (s: &'static str)
    requires
        d < 10,
    ensures
        s@ == seq![digit_char(d as nat)],
{
    let digits = "0123456789";
    proof {
        reveal_strlit("0123456789");
    }
    let s = digits.substring_char(d as usize, (d + 1) as usize);
    assert(s@ =~= seq![digit_char(d as nat)]);
    s
}

/// Append the decimal text of `n` to `out`.
pub fn append_decimal(out: &mut String, n: u64)
    ensures
        final(out)@ == old(out)@ + decimal_text(n as nat),
    decreases n,
{
    if n >= 10 {
        append_decimal(out, n / 10);
    }
    out.append(digit_str(n % 10));
    proof {
        if n >= 10 {
            assert(old(out)@ + decimal_text((n / 10) as nat) + seq![digit_char((n % 10) as nat)]
                =~= old(out)@ + decimal_text(n as nat));
        } else {
            assert(decimal_text(n as nat) == seq![digit_char(n as nat)]);
        }
    }
}

/// `n.to_string()`.
pub fn to_decimal(n: u64) -> (text: String)
    ensures
        text@ == decimal_text(n as nat),
{
    let mut text = String::new();
    append_decimal(&mut text, n);
    assert(text@ =~= decimal_text(n as nat));
    text
}

proof fn lemma_digit_char(d: nat)
    requires
        d < 10,
    ensures
        is_ascii_digit(digit_char(d)),
        digit_of(digit_char(d)) == d,
{
    assert(digit_char(d) as u32 == 48 + d);
}

/// The decimal text of a number is a non-empty run of digits whose value
/// is the number.
pub proof fn lemma_decimal_text(n: nat)
    ensures
        decimal_text(n).len() > 0,
        all_digits(decimal_text(n)),
        digits_value(decimal_text(n)) == n,
    decreases n,
{
    lemma_digit_char(n % 10);
    let t = decimal_text(n);
    if n < 10 {
        assert(t.drop_last() =~= Seq::<char>::empty());
        assert(digits_value(t.drop_last()) == 0);
        assert(n % 10 == n);
        assert(digits_value(t) == digits_value(t.drop_last()) * 10 + digit_of(t.last()));
    } else {
        lemma_decimal_text(n / 10);
        assert(t.drop_last() == decimal_text(n / 10));
        assert(forall|i: int| 0 <= i < t.len() - 1 ==> t[i] == decimal_text(n / 10)[i]);
        assert(is_ascii_digit(t[t.len() - 1]));
        assert(n == (n / 10) * 10 + n % 10) by (nonlinear_arith);
        assert(digits_value(t) == digits_value(t.drop_last()) * 10 + digit_of(t.last()));
    }
}

/// Parsing the decimal text of a number gives the number back.
pub proof fn law_decimal_roundtrip(n: nat, max: int)
    requires
        n <= max,
    ensures
        parsed_int(decimal_text(n), false, 0, max) == Some(n as int),
{
    lemma_decimal_text(n);
    let t = decimal_text(n);
    assert(is_ascii_digit(t[0]));
}

} // verus!

verus! {

/// Character-wise string equality.
pub fn str_equals(a: &str, b: &str) -> (eq: bool)
    ensures
        eq == (a@ == b@),
{
    let n = a.unicode_len();
    if n != b.unicode_len() {
        return false;
    }
    for i in 0..n
        invariant
            n == a@.len(),
            n == b@.len(),
            forall|k: int| 0 <= k < i ==> a@[k] == b@[k],
    {
        if a.get_char(i) != b.get_char(i) {
            return false;
        }
    }
    assert(a@ =~= b@);
    true
}

} // verus!

verus! {

// ---------------------------------------------------------------------------
// Whitespace trimming (the semantics of `str::trim`)
// ---------------------------------------------------------------------------

/// Unicode `White_Space`, the set `char::is_whitespace` tests.
pub open spec fn is_unicode_whitespace(c: char) -> bool {
    let v = c as u32;
    (9 <= v <= 13) || v == 32 || v == 0x85 || v == 0xA0 || v == 0x1680 || (0x2000 <= v <= 0x200A)
        || v == 0x2028 || v == 0x2029 || v == 0x202F || v == 0x205F || v == 0x3000
}

/// Number of leading whitespace characters.
pub open spec fn leading_ws(s: Seq<char>) -> nat
    decreases s.len(),
{
    if s.len() > 0 && is_unicode_whitespace(s[0]) {
        1 + leading_ws(s.drop_first())
    } else {
        0
    }
}

/// Number of trailing whitespace characters.
pub open spec fn trailing_ws(s: Seq<char>) -> nat
    decreases s.len(),
{
    if s.len() > 0 && is_unicode_whitespace(s.last()) {
        1 + trailing_ws(s.drop_last())
    } else {
        0
    }
}

/// `s` without leading and trailing whitespace.
pub open spec fn trimmed(s: Seq<char>) -> Seq<char> {
    let a = leading_ws(s) as int;
    let rest = s.subrange(a, s.len() as int);
    rest.subrange(0, rest.len() - trailing_ws(rest))
}

proof fn lemma_leading_ws_bound(s: Seq<char>)
    ensures
        leading_ws(s) <= s.len(),
    decreases s.len(),
{
    if s.len() > 0 && is_unicode_whitespace(s[0]) {
        lemma_leading_ws_bound(s.drop_first());
    }
}

proof fn lemma_trailing_ws_bound(s: Seq<char>)
    ensures
        trailing_ws(s) <= s.len(),
    decreases s.len(),
{
    if s.len() > 0 && is_unicode_whitespace(s.last()) {
        lemma_trailing_ws_bound(s.drop_last());
    }
}

pub fn is_whitespace_char(c: char) -> (ws: bool)
    ensures
        ws == is_unicode_whitespace(c),
{
    let v = c as u32;
    (9 <= v && v <= 13) || v == 32 || v == 0x85 || v == 0xA0 || v == 0x1680 || (0x2000 <= v
        && v <= 0x200A) || v == 0x2028 || v == 0x2029 || v == 0x202F || v == 0x205F || v == 0x3000
}

/// `s.trim()`.
pub fn trim(s: &str) -> (t: &str)
    ensures
        t@ == trimmed(s@),
{
    let n = s.unicode_len();
    let mut a: usize = 0;
    assert(s@.subrange(0, n as int) == s@);
    while a < n && is_whitespace_char(s.get_char(a))
        invariant
            n == s@.len(),
            a <= n,
            leading_ws(s@) == a + leading_ws(s@.subrange(a as int, n as int)),
        decreases n - a,
    {
        assert(s@.subrange(a as int, n as int).drop_first() == s@.subrange(a + 1, n as int));
        a = a + 1;
    }
    proof {
        if a < n {
            assert(s@.subrange(a as int, n as int)[0] == s@[a as int]);
        }
    }
    let rest = s.substring_char(a, n);
    let m = rest.unicode_len();
    let mut b: usize = m;
    assert(rest@.subrange(0, m as int) == rest@);
    while b > 0 && is_whitespace_char(rest.get_char(b - 1))
        invariant
            m == rest@.len(),
            b <= m,
            trailing_ws(rest@) == (m - b) + trailing_ws(rest@.subrange(0, b as int)),
        decreases b,
    {
        assert(rest@.subrange(0, b as int).drop_last() == rest@.subrange(0, b - 1));
        b = b - 1;
    }
    proof {
        if b > 0 {
            assert(rest@.subrange(0, b as int).last() == rest@[b - 1]);
        }
    }
    rest.substring_char(0, b)
}

// ---------------------------------------------------------------------------
// Comma-separated lists
// ---------------------------------------------------------------------------

/// Scanning `s` up to character `i`: the items finished so far (trimmed,
/// empty ones dropped) and where the current item starts.
pub open spec fn list_scan(s: Seq<char>, i: nat) -> (Seq<Seq<char>>, nat)
    decreases i,
{
    if i == 0 {
        (Seq::empty(), 0)
    } else {
        let (items, start) = list_scan(s, (i - 1) as nat);
        if s[i - 1] == ',' {
            let item = trimmed(s.subrange(start as int, i - 1));
            (if item.len() > 0 {
                items.push(item)
            } else {
                items
            }, i)
        } else {
            (items, start)
        }
    }
}

/// The items of a comma-separated list, trimmed, with empty ones dropped
/// (`s.split(',').map(str::trim).filter(|s| !s.is_empty())`).
pub open spec fn list_items(s: Seq<char>) -> Seq<Seq<char>> {
    let (items, start) = list_scan(s, s.len());
    let last = trimmed(s.subrange(start as int, s.len() as int));
    if last.len() > 0 {
        items.push(last)
    } else {
        items
    }
}

proof fn lemma_list_scan_start(s: Seq<char>, i: nat)
    requires
        i <= s.len(),
    ensures
        list_scan(s, i).1 <= i,
    decreases i,
{
    if i > 0 {
        lemma_list_scan_start(s, (i - 1) as nat);
    }
}

/// Split a comma-separated list into trimmed, non-empty items.
pub fn split_list(s: &str) -> (items: Vec<String>)
    ensures
        items.deep_view() == list_items(s@),
{
    let n = s.unicode_len();
    let mut items: Vec<String> = Vec::new();
    let mut start: usize = 0;
    let mut i: usize = 0;
    while i < n
        invariant
            n == s@.len(),
            i <= n,
            start <= i,
            list_scan(s@, i as nat) == (items.deep_view(), start as nat),
        decreases n - i,
    {
        proof {
            lemma_list_scan_start(s@, (i + 1) as nat);
        }
        if s.get_char(i) == ',' {
            let piece = s.substring_char(start, i);
            let item = trim(piece);
            if item.unicode_len() > 0 {
                items.push(String::from_str(item));
            }
            start = i + 1;
        }
        i = i + 1;
    }
    let piece = s.substring_char(start, n);
    let item = trim(piece);
    if item.unicode_len() > 0 {
        items.push(String::from_str(item));
    }
    items
}

} // verus!
