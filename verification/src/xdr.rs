//! The XDR forms of Soroban `ScVal`s that contract events carry, read from
//! bytes.
//!
//! XDR is big-endian in 4-byte units. An `ScVal` starts with its type tag;
//! the forms read here are `U32` (3), `I32` (4), `U64` (5), `I64` (6),
//! `I128` (10, high signed half then low half), `Bytes` (13), `String`
//! (14), `Symbol` (15: at most 32 of `[A-Za-z0-9_]`), `Vec` (16) of strings
//! or symbols, and, at the top of an event payload, `Map` (17) with symbol
//! keys. Variable-length data is a 4-byte length, the bytes, and zero
//! padding to a multiple of 4; a `Vec` or `Map` is a present-flag (1), a
//! 4-byte count and the elements. Any other form is not read.

use vstd::prelude::*;

verus! {

/// Type tags of the `ScVal` forms read here.
pub const SCV_U32: u32 = 3;
pub const SCV_I32: u32 = 4;
pub const SCV_U64: u32 = 5;
pub const SCV_I64: u32 = 6;
pub const SCV_I128: u32 = 10;
pub const SCV_BYTES: u32 = 13;
pub const SCV_STRING: u32 = 14;
pub const SCV_SYMBOL: u32 = 15;
pub const SCV_VEC: u32 = 16;
pub const SCV_MAP: u32 = 17;

/// Longest symbol, in bytes.
pub const MAX_SYMBOL_BYTES: usize = 32;

/// The big-endian unsigned 32-bit number at `p`.
pub open spec fn be32(b: Seq<u8>, p: int) -> int {
    b[p] as int * 0x100_0000 + b[p + 1] as int * 0x1_0000 + b[p + 2] as int * 0x100 + b[p + 3] as int
}

/// The big-endian unsigned 64-bit number at `p`.
pub open spec fn be64(b: Seq<u8>, p: int) -> int {
    be32(b, p) * 0x1_0000_0000 + be32(b, p + 4)
}

/// Two's-complement reading of a 32-bit pattern.
pub open spec fn signed32(v: int) -> int {
    if v >= 0x8000_0000 {
        v - 0x1_0000_0000
    } else {
        v
    }
}

/// Two's-complement reading of a 64-bit pattern.
pub open spec fn signed64(v: int) -> int {
    if v >= 0x8000_0000_0000_0000 {
        v - 0x1_0000_0000_0000_0000
    } else {
        v
    }
}

/// Zero bytes that pad `n` bytes to a multiple of 4.
pub open spec fn pad_len(n: int) -> int {
    (4 - n % 4) % 4
}

pub open spec fn all_zero(b: Seq<u8>, from: int, to: int) -> bool {
    forall|i: int| from <= i < to ==> b[i] == 0
}

pub open spec fn is_symbol_byte(x: u8) -> bool {
    (48 <= x <= 57) || (65 <= x <= 90) || (97 <= x <= 122) || x == 95
}

/// A valid symbol: at most 32 of `[A-Za-z0-9_]`.
pub open spec fn is_symbol(s: Seq<u8>) -> bool {
    s.len() <= MAX_SYMBOL_BYTES && forall|i: int| 0 <= i < s.len() ==> #[trigger] is_symbol_byte(s[i])
}

/// Variable-length data at `p`: its bytes and where it ends (after the
/// padding, which must be zero).
pub open spec fn spec_opaque(b: Seq<u8>, p: int) -> Option<(Seq<u8>, int)> {
    if 0 <= p && p + 4 <= b.len() {
        let n = be32(b, p);
        let end = p + 4 + n + pad_len(n);
        if end <= b.len() && all_zero(b, p + 4 + n, end) {
            Some((b.subrange(p + 4, p + 4 + n), end))
        } else {
            None
        }
    } else {
        None
    }
}

/// A value of the forms read here.
pub enum XdrValue {
    Bytes(Seq<u8>),
    Str(Seq<u8>),
    Sym(Seq<u8>),
    /// Any of the integer forms, as its mathematical value.
    Int(int),
    /// A vector of strings and symbols, as their bytes.
    Texts(Seq<Seq<u8>>),
}

/// A string or symbol at `p`: its bytes and where it ends.
pub open spec fn spec_text_elem(b: Seq<u8>, p: int) -> Option<(Seq<u8>, int)> {
    if 0 <= p && p + 4 <= b.len() && (be32(b, p) == SCV_STRING || be32(b, p) == SCV_SYMBOL) {
        match spec_opaque(b, p + 4) {
            Some((s, end)) => if be32(b, p) == SCV_STRING || is_symbol(s) {
                Some((s, end))
            } else {
                None
            },
            None => None,
        }
    } else {
        None
    }
}

/// `k` strings or symbols, one after the other from `p`.
pub open spec fn spec_texts(b: Seq<u8>, p: int, k: nat) -> Option<(Seq<Seq<u8>>, int)>
    decreases k,
{
    if k == 0 {
        Some((Seq::empty(), p))
    } else {
        match spec_texts(b, p, (k - 1) as nat) {
            Some((ts, q)) => match spec_text_elem(b, q) {
                Some((t, r)) => Some((ts.push(t), r)),
                None => None,
            },
            None => None,
        }
    }
}

/// The value at `p` and where it ends.
pub open spec fn spec_value(b: Seq<u8>, p: int) -> Option<(XdrValue, int)> {
    if 0 <= p && p + 4 <= b.len() {
        let tag = be32(b, p);
        if tag == SCV_U32 || tag == SCV_I32 {
            if p + 8 <= b.len() {
                let v = be32(b, p + 4);
                Some((XdrValue::Int(if tag == SCV_U32 { v } else { signed32(v) }), p + 8))
            } else {
                None
            }
        } else if tag == SCV_U64 || tag == SCV_I64 {
            if p + 12 <= b.len() {
                let v = be64(b, p + 4);
                Some((XdrValue::Int(if tag == SCV_U64 { v } else { signed64(v) }), p + 12))
            } else {
                None
            }
        } else if tag == SCV_I128 {
            if p + 20 <= b.len() {
                Some(
                    (
                        XdrValue::Int(signed64(be64(b, p + 4)) * 0x1_0000_0000_0000_0000 + be64(b, p + 12)),
                        p + 20,
                    ),
                )
            } else {
                None
            }
        } else if tag == SCV_BYTES {
            match spec_opaque(b, p + 4) {
                Some((s, end)) => Some((XdrValue::Bytes(s), end)),
                None => None,
            }
        } else if tag == SCV_STRING {
            match spec_opaque(b, p + 4) {
                Some((s, end)) => Some((XdrValue::Str(s), end)),
                None => None,
            }
        } else if tag == SCV_SYMBOL {
            match spec_opaque(b, p + 4) {
                Some((s, end)) => if is_symbol(s) {
                    Some((XdrValue::Sym(s), end))
                } else {
                    None
                },
                None => None,
            }
        } else if tag == SCV_VEC {
            if p + 12 <= b.len() && be32(b, p + 4) == 1 {
                match spec_texts(b, p + 12, be32(b, p + 8) as nat) {
                    Some((ts, end)) => Some((XdrValue::Texts(ts), end)),
                    None => None,
                }
            } else {
                None
            }
        } else {
            None
        }
    } else {
        None
    }
}

/// A symbol (tag and body) at `p`: its bytes and where it ends.
pub open spec fn spec_symbol(b: Seq<u8>, p: int) -> Option<(Seq<u8>, int)> {
    if 0 <= p && p + 4 <= b.len() && be32(b, p) == SCV_SYMBOL {
        match spec_opaque(b, p + 4) {
            Some((s, end)) => if is_symbol(s) {
                Some((s, end))
            } else {
                None
            },
            None => None,
        }
    } else {
        None
    }
}

/// `k` map entries (symbol key, value) one after the other from `p`.
pub open spec fn spec_entries(b: Seq<u8>, p: int, k: nat) -> Option<(Seq<(Seq<u8>, XdrValue)>, int)>
    decreases k,
{
    if k == 0 {
        Some((Seq::empty(), p))
    } else {
        match spec_entries(b, p, (k - 1) as nat) {
            Some((es, q)) => match spec_symbol(b, q) {
                Some((key, r)) => match spec_value(b, r) {
                    Some((v, end)) => Some((es.push((key, v)), end)),
                    None => None,
                },
                None => None,
            },
            None => None,
        }
    }
}

/// An event payload: a symbol-keyed map, or a single value.
pub enum XdrPayload {
    Entries(Seq<(Seq<u8>, XdrValue)>),
    Single(XdrValue),
}

/// The payload the bytes hold, when they hold exactly one (no bytes left
/// over).
pub open spec fn spec_payload(b: Seq<u8>) -> Option<XdrPayload> {
    if b.len() >= 4 && be32(b, 0) == SCV_MAP {
        if b.len() >= 12 && be32(b, 4) == 1 {
            match spec_entries(b, 12, be32(b, 8) as nat) {
                Some((es, end)) => if end == b.len() {
                    Some(XdrPayload::Entries(es))
                } else {
                    None
                },
                None => None,
            }
        } else {
            None
        }
    } else {
        match spec_value(b, 0) {
            Some((v, end)) => if end == b.len() {
                Some(XdrPayload::Single(v))
            } else {
                None
            },
            None => None,
        }
    }
}

/// The symbol the bytes hold, when they hold exactly one.
pub open spec fn spec_whole_symbol(b: Seq<u8>) -> Option<Seq<u8>> {
    match spec_symbol(b, 0) {
        Some((s, end)) => if end == b.len() {
            Some(s)
        } else {
            None
        },
        None => None,
    }
}

/// The value of the first entry with key `key`.
pub open spec fn spec_field(es: Seq<(Seq<u8>, XdrValue)>, key: Seq<u8>) -> Option<XdrValue>
    decreases es.len(),
{
    if es.len() == 0 {
        None
    } else if es[0].0 == key {
        Some(es[0].1)
    } else {
        spec_field(es.drop_first(), key)
    }
}

/// The bytes of an ASCII text.
pub open spec fn ascii_bytes(s: Seq<char>) -> Seq<u8> {
    s.map_values(|c: char| c as u8)
}

// ---------------------------------------------------------------------------
// Reading
// ---------------------------------------------------------------------------

/// A value read from bytes.
pub enum ScVal {
    Bytes(Vec<u8>),
    Str(Vec<u8>),
    Sym(Vec<u8>),
    Int(i128),
    Texts(Vec<Vec<u8>>),
}

impl View for ScVal {
    type V = XdrValue;

    open spec fn view(&self) -> XdrValue {
        match self {
            ScVal::Bytes(v) => XdrValue::Bytes(v@),
            ScVal::Str(v) => XdrValue::Str(v@),
            ScVal::Sym(v) => XdrValue::Sym(v@),
            ScVal::Int(v) => XdrValue::Int(*v as int),
            ScVal::Texts(v) => XdrValue::Texts(texts_view(v@)),
        }
    }
}

pub open spec fn texts_view(ts: Seq<Vec<u8>>) -> Seq<Seq<u8>> {
    ts.map_values(|t: Vec<u8>| t@)
}

pub open spec fn entries_view(es: Seq<(Vec<u8>, ScVal)>) -> Seq<(Seq<u8>, XdrValue)> {
    es.map_values(|e: (Vec<u8>, ScVal)| (e.0@, e.1@))
}

/// A payload read from bytes.
pub enum ScPayload {
    Entries(Vec<(Vec<u8>, ScVal)>),
    Single(ScVal),
}

impl View for ScPayload {
    type V = XdrPayload;

    open spec fn view(&self) -> XdrPayload {
        match self {
            ScPayload::Entries(es) => XdrPayload::Entries(entries_view(es@)),
            ScPayload::Single(v) => XdrPayload::Single(v@),
        }
    }
}

/// The big-endian 32-bit number at `p`.
fn read_be32(b: &[u8], p: usize) -> (v: u32)
    requires
        p + 4 <= b@.len(),
    ensures
        v == be32(b@, p as int),
{
    b[p] as u32 * 0x100_0000 + b[p + 1] as u32 * 0x1_0000 + b[p + 2] as u32 * 0x100 + b[p + 3] as u32
}

/// The big-endian 64-bit number at `p`.
fn read_be64(b: &[u8], p: usize) -> (v: u64)
    requires
        p + 8 <= b@.len(),
    ensures
        v == be64(b@, p as int),
{
    let _len = b.len();
    read_be32(b, p) as u64 * 0x1_0000_0000 + read_be32(b, p + 4) as u64
}

/// Variable-length data at `p` and where it ends.
fn read_opaque(b: &[u8], p: usize) -> (r: Option<(Vec<u8>, usize)>)
    ensures
        match r {
            Some((v, end)) => spec_opaque(b@, p as int) == Some((v@, end as int)),
            None => spec_opaque(b@, p as int) is None,
        },
{
    if p > b.len() || b.len() - p < 4 {
        return None;
    }
    let n = read_be32(b, p) as usize;
    let start = p + 4;
    let rem = b.len() - start;
    if n > rem {
        return None;
    }
    let pad = (4 - n % 4) % 4;
    if pad > rem - n {
        return None;
    }
    let end = start + n + pad;
    assert(pad == pad_len(n as int));
    let mut i = start + n;
    while i < end
        invariant
            start + n <= i <= end,
            end <= b@.len(),
            p + 4 <= b@.len(),
            start == p + 4,
            n as int == be32(b@, p as int),
            end as int == p + 4 + n + pad_len(n as int),
            all_zero(b@, (start + n) as int, i as int),
        decreases end - i,
    {
        if b[i] != 0 {
            assert(!all_zero(b@, (start + n) as int, end as int));
            return None;
        }
        i = i + 1;
    }
    let v = vstd::slice::slice_to_vec(vstd::slice::slice_subrange(b, start, start + n));
    Some((v, end))
}

/// Whether every byte is a symbol byte (the length is checked apart).
fn symbol_bytes_ok(s: &Vec<u8>) -> (ok: bool)
    ensures
        ok == is_symbol(s@),
{
    if s.len() > MAX_SYMBOL_BYTES {
        return false;
    }
    for i in 0..s.len()
        invariant
            s@.len() <= MAX_SYMBOL_BYTES,
            forall|k: int| 0 <= k < i ==> #[trigger] is_symbol_byte(s@[k]),
    {
        let x = s[i];
        if !((48 <= x && x <= 57) || (65 <= x && x <= 90) || (97 <= x && x <= 122) || x == 95) {
            assert(!is_symbol_byte(s@[i as int]));
            return false;
        }
    }
    true
}

/// A string or symbol at `p`.
fn read_text_elem(b: &[u8], p: usize) -> (r: Option<(Vec<u8>, usize)>)
    ensures
        match r {
            Some((t, end)) => spec_text_elem(b@, p as int) == Some((t@, end as int)),
            None => spec_text_elem(b@, p as int) is None,
        },
{
    if p > b.len() || b.len() - p < 4 {
        return None;
    }
    let tag = read_be32(b, p);
    if tag != SCV_STRING && tag != SCV_SYMBOL {
        return None;
    }
    let (s, end) = read_opaque(b, p + 4)?;
    if tag == SCV_SYMBOL && !symbol_bytes_ok(&s) {
        return None;
    }
    Some((s, end))
}

/// A symbol at `p`.
fn read_symbol(b: &[u8], p: usize) -> (r: Option<(Vec<u8>, usize)>)
    ensures
        match r {
            Some((s, end)) => spec_symbol(b@, p as int) == Some((s@, end as int)),
            None => spec_symbol(b@, p as int) is None,
        },
{
    if p > b.len() || b.len() - p < 4 {
        return None;
    }
    if read_be32(b, p) != SCV_SYMBOL {
        return None;
    }
    let (s, end) = read_opaque(b, p + 4)?;
    if !symbol_bytes_ok(&s) {
        return None;
    }
    Some((s, end))
}

/// `count` strings or symbols from `p`.
fn read_texts(b: &[u8], p: usize, count: u32) -> (r: Option<(Vec<Vec<u8>>, usize)>)
    ensures
        match r {
            Some((ts, end)) => spec_texts(b@, p as int, count as nat) == Some((texts_view(ts@), end as int)),
            None => spec_texts(b@, p as int, count as nat) is None,
        },
{
    let mut ts: Vec<Vec<u8>> = Vec::new();
    let mut q = p;
    let mut k: u32 = 0;
    while k < count
        invariant
            k <= count,
            spec_texts(b@, p as int, k as nat) == Some((texts_view(ts@), q as int)),
        decreases count - k,
    {
        proof {
            assert(spec_texts(b@, p as int, (k + 1) as nat) == match spec_text_elem(b@, q as int) {
                Some((t, r)) => Some((texts_view(ts@).push(t), r)),
                None => None::<(Seq<Seq<u8>>, int)>,
            });
        }
        match read_text_elem(b, q) {
            Some((t, end)) => {
                let ghost before = texts_view(ts@);
                let ghost tv = t@;
                ts.push(t);
                assert(texts_view(ts@) =~= before.push(tv));
                q = end;
            },
            None => {
                proof {
                    lemma_texts_stop(b@, p as int, (k + 1) as nat, count as nat);
                }
                return None;
            },
        }
        k = k + 1;
    }
    Some((ts, q))
}

proof fn lemma_texts_stop(b: Seq<u8>, p: int, k: nat, n: nat)
    requires
        k <= n,
        spec_texts(b, p, k) is None,
    ensures
        spec_texts(b, p, n) is None,
    decreases n - k,
{
    if k < n {
        lemma_texts_stop(b, p, k + 1, n);
    }
}

proof fn lemma_entries_stop(b: Seq<u8>, p: int, k: nat, n: nat)
    requires
        k <= n,
        spec_entries(b, p, k) is None,
    ensures
        spec_entries(b, p, n) is None,
    decreases n - k,
{
    if k < n {
        lemma_entries_stop(b, p, k + 1, n);
    }
}

/// The value at `p` and where it ends.
pub fn read_value(b: &[u8], p: usize) -> (r: Option<(ScVal, usize)>)
    ensures
        match r {
            Some((v, end)) => spec_value(b@, p as int) == Some((v@, end as int)),
            None => spec_value(b@, p as int) is None,
        },
{
    if p > b.len() || b.len() - p < 4 {
        return None;
    }
    let tag = read_be32(b, p);
    let rem = b.len() - p;
    if tag == SCV_U32 || tag == SCV_I32 {
        if rem < 8 {
            return None;
        }
        let v = read_be32(b, p + 4);
        let x: i128 = if tag == SCV_U32 || v < 0x8000_0000 {
            v as i128
        } else {
            v as i128 - 0x1_0000_0000
        };
        Some((ScVal::Int(x), p + 8))
    } else if tag == SCV_U64 || tag == SCV_I64 {
        if rem < 12 {
            return None;
        }
        let v = read_be64(b, p + 4);
        let x: i128 = if tag == SCV_U64 || v < 0x8000_0000_0000_0000 {
            v as i128
        } else {
            v as i128 - 0x1_0000_0000_0000_0000
        };
        Some((ScVal::Int(x), p + 12))
    } else if tag == SCV_I128 {
        if rem < 20 {
            return None;
        }
        let hi = read_be64(b, p + 4);
        let lo = read_be64(b, p + 12);
        let h: i128 = if hi < 0x8000_0000_0000_0000 {
            hi as i128
        } else {
            hi as i128 - 0x1_0000_0000_0000_0000
        };
        assert(-0x8000_0000_0000_0000 <= h < 0x8000_0000_0000_0000);
        let x: i128 = h * 0x1_0000_0000_0000_0000 + lo as i128;
        Some((ScVal::Int(x), p + 20))
    } else if tag == SCV_BYTES {
        let (s, end) = read_opaque(b, p + 4)?;
        Some((ScVal::Bytes(s), end))
    } else if tag == SCV_STRING {
        let (s, end) = read_opaque(b, p + 4)?;
        Some((ScVal::Str(s), end))
    } else if tag == SCV_SYMBOL {
        let (s, end) = read_opaque(b, p + 4)?;
        if !symbol_bytes_ok(&s) {
            return None;
        }
        Some((ScVal::Sym(s), end))
    } else if tag == SCV_VEC {
        if rem < 12 || read_be32(b, p + 4) != 1 {
            return None;
        }
        let count = read_be32(b, p + 8);
        let (ts, end) = read_texts(b, p + 12, count)?;
        Some((ScVal::Texts(ts), end))
    } else {
        None
    }
}

/// `count` map entries from `p`.
fn read_entries(b: &[u8], p: usize, count: u32) -> (r: Option<(Vec<(Vec<u8>, ScVal)>, usize)>)
    ensures
        match r {
            Some((es, end)) => spec_entries(b@, p as int, count as nat) == Some((entries_view(es@), end as int)),
            None => spec_entries(b@, p as int, count as nat) is None,
        },
{
    let mut es: Vec<(Vec<u8>, ScVal)> = Vec::new();
    let mut q = p;
    let mut k: u32 = 0;
    while k < count
        invariant
            k <= count,
            spec_entries(b@, p as int, k as nat) == Some((entries_view(es@), q as int)),
        decreases count - k,
    {
        let ghost before = entries_view(es@);
        match read_symbol(b, q) {
            Some((key, r)) => match read_value(b, r) {
                Some((v, end)) => {
                    let ghost e = (key@, v@);
                    es.push((key, v));
                    assert(entries_view(es@) =~= before.push(e));
                    q = end;
                },
                None => {
                    proof {
                        lemma_entries_stop(b@, p as int, (k + 1) as nat, count as nat);
                    }
                    return None;
                },
            },
            None => {
                proof {
                    lemma_entries_stop(b@, p as int, (k + 1) as nat, count as nat);
                }
                return None;
            },
        }
        k = k + 1;
    }
    Some((es, q))
}

/// The payload the bytes hold.
pub fn read_payload(b: &[u8]) -> (r: Option<ScPayload>)
    ensures
        match r {
            Some(pl) => spec_payload(b@) == Some(pl@),
            None => spec_payload(b@) is None,
        },
{
    if b.len() >= 4 && read_be32(b, 0) == SCV_MAP {
        if b.len() < 12 || read_be32(b, 4) != 1 {
            return None;
        }
        let count = read_be32(b, 8);
        let (es, end) = read_entries(b, 12, count)?;
        if end != b.len() {
            return None;
        }
        Some(ScPayload::Entries(es))
    } else {
        let (v, end) = read_value(b, 0)?;
        if end != b.len() {
            return None;
        }
        Some(ScPayload::Single(v))
    }
}

/// The symbol the bytes hold.
pub fn read_whole_symbol(b: &[u8]) -> (r: Option<Vec<u8>>)
    ensures
        match r {
            Some(s) => spec_whole_symbol(b@) == Some(s@),
            None => spec_whole_symbol(b@) is None,
        },
{
    let (s, end) = read_symbol(b, 0)?;
    if end != b.len() {
        return None;
    }
    Some(s)
}

/// Whether `bytes` are the ASCII bytes of `name`.
pub fn bytes_are(bytes: &Vec<u8>, name: &str) -> (eq: bool)
    ensures
        eq == (bytes@ == ascii_bytes(name@)),
{
    let n = name.unicode_len();
    if n != bytes.len() {
        return false;
    }
    for i in 0..n
        invariant
            n == name@.len(),
            n == bytes@.len(),
            forall|k: int| 0 <= k < i ==> bytes@[k] == (name@[k] as u8),
    {
        let c = name.get_char(i);
        if bytes[i] != c as u8 {
            proof {
                assert(bytes@ != ascii_bytes(name@)) by {
                    if bytes@ == ascii_bytes(name@) {
                        assert(bytes@[i as int] == (c as u8));
                    }
                }
            }
            return false;
        }
    }
    assert(bytes@ =~= ascii_bytes(name@));
    true
}

/// The value of the first entry with key `key`.
pub fn field<'a>(es: &'a Vec<(Vec<u8>, ScVal)>, key: &str) -> (r: Option<&'a ScVal>)
    ensures
        match r {
            Some(v) => spec_field(entries_view(es@), ascii_bytes(key@)) == Some(v@),
            None => spec_field(entries_view(es@), ascii_bytes(key@)) is None,
        },
{
    let ghost all = entries_view(es@);
    let ghost k = ascii_bytes(key@);
    assert(all.subrange(0, all.len() as int) =~= all);
    for i in 0..es.len()
        invariant
            all == entries_view(es@),
            k == ascii_bytes(key@),
            spec_field(all, k) == spec_field(all.subrange(i as int, all.len() as int), k),
    {
        let ghost rest = all.subrange(i as int, all.len() as int);
        assert(rest.drop_first() =~= all.subrange(i + 1, all.len() as int));
        assert(rest[0] == all[i as int]);
        if bytes_are(&es[i].0, key) {
            return Some(&es[i].1);
        }
    }
    assert(all.subrange(es@.len() as int, all.len() as int) =~= Seq::<(Seq<u8>, XdrValue)>::empty());
    None
}

} // verus!
