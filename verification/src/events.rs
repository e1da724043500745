//! Decoding of Attesta contract events into typed pool/registry events.
//!
//! Events come from Soroban RPC as base64-XDR `ScVal`s (see [`crate::xdr`]):
//! the first topic is the event name symbol, and the payload is a
//! symbol-keyed map; a `nullifier` may also carry the bare 32 bytes. The
//! provisional layout, field by field:
//!
//! - `new_commitment`: `commitment` (32 bytes), `leaf_index` (integer),
//!   and optionally `deposit_amount` (integer) and `asset` (string/symbol);
//! - `nullifier`: `nullifier` (32 bytes), or the bare 32 bytes;
//! - `note`: `commitment` (32 bytes), `ephemeral_pubkey`, `ciphertext` (bytes);
//! - `withdrawal`: `amount` (integer), `asset` (string/symbol);
//! - `issuer`: `issuer_id`, `name`, `status` (strings/symbols),
//!   `public_key` (bytes), `claim_types` (vector of strings/symbols).
//!
//! Test drivers may instead publish a plain-text name with a JSON payload;
//! turning that JSON text into the payload structs below is serde's job and
//! happens where the events are fetched. Everything else — recognising the
//! name, reading the XDR, checking fields and amounts, building the typed
//! event — is decided here.

use vstd::prelude::*;
use vstd::utf8::{decode_utf8, valid_utf8};
use crate::codec::{
    base64_decode, base64_standard_decoding, decode_hex0x, hex_decoding, strip_0x, utf8_text,
};
use crate::xdr::{
    ascii_bytes, field, read_payload, read_whole_symbol, spec_field, spec_payload,
    spec_whole_symbol, texts_view, bytes_are, ScPayload, ScVal, XdrPayload, XdrValue,
};
use crate::text::{parse_i128, parsed_int, str_equals};

verus! {

/// One contract event as returned by `getEvents`.
pub struct RawEvent {
    pub id: String,
    pub contract_id: String,
    pub ledger: u64,
    pub tx_hash: String,
    pub topic: Vec<String>,
    pub value: String,
}

/// Answer of `getLatestLedger`.
pub struct LatestLedger {
    pub sequence: u64,
}

/// A page of `getEvents`.
pub struct EventsPage {
    pub events: Vec<RawEvent>,
    pub cursor: Option<String>,
    pub latest_ledger: u64,
}

pub enum PoolEvent {
    /// A new commitment appended to the pool's tree (deposit or transfer
    /// output). Deposits carry a public amount for TVL accounting.
    NewCommitment {
        commitment: [u8; 32],
        leaf_index: i64,
        /// Public deposit amount (None for transfer outputs, whose amounts
        /// are shielded).
        deposit_amount: Option<i128>,
        asset: Option<String>,
    },
    /// A nullifier revealed by a transfer or withdrawal.
    NullifierSpent { nullifier: [u8; 32] },
    /// Encrypted note blob for the recipient to trial-decrypt.
    EncryptedNote { commitment: [u8; 32], ephemeral_pubkey: Vec<u8>, ciphertext: Vec<u8> },
    /// Public withdrawal amount leaving the pool (TVL accounting).
    Withdrawal { amount: i128, asset: String },
    /// Issuer registry change.
    IssuerUpdated {
        issuer_id: String,
        name: String,
        public_key: Vec<u8>,
        claim_types: Vec<String>,
        status: String,
    },
}

/// A [`PoolEvent`] with its text and bytes taken as sequences.
pub enum PoolEventView {
    NewCommitment {
        commitment: Seq<u8>,
        leaf_index: i64,
        deposit_amount: Option<i128>,
        asset: Option<Seq<char>>,
    },
    NullifierSpent { nullifier: Seq<u8> },
    EncryptedNote { commitment: Seq<u8>, ephemeral_pubkey: Seq<u8>, ciphertext: Seq<u8> },
    Withdrawal { amount: i128, asset: Seq<char> },
    IssuerUpdated {
        issuer_id: Seq<char>,
        name: Seq<char>,
        public_key: Seq<u8>,
        claim_types: Seq<Seq<char>>,
        status: Seq<char>,
    },
}

impl View for PoolEvent {
    type V = PoolEventView;

    open spec fn view(&self) -> PoolEventView {
        match self {
            PoolEvent::NewCommitment { commitment, leaf_index, deposit_amount, asset } => {
                PoolEventView::NewCommitment {
                    commitment: commitment@,
                    leaf_index: *leaf_index,
                    deposit_amount: *deposit_amount,
                    asset: match asset {
                        Some(a) => Some(a@),
                        None => None,
                    },
                }
            },
            PoolEvent::NullifierSpent { nullifier } => PoolEventView::NullifierSpent {
                nullifier: nullifier@,
            },
            PoolEvent::EncryptedNote { commitment, ephemeral_pubkey, ciphertext } => {
                PoolEventView::EncryptedNote {
                    commitment: commitment@,
                    ephemeral_pubkey: ephemeral_pubkey@,
                    ciphertext: ciphertext@,
                }
            },
            PoolEvent::Withdrawal { amount, asset } => PoolEventView::Withdrawal {
                amount: *amount,
                asset: asset@,
            },
            PoolEvent::IssuerUpdated { issuer_id, name, public_key, claim_types, status } => {
                PoolEventView::IssuerUpdated {
                    issuer_id: issuer_id@,
                    name: name@,
                    public_key: public_key@,
                    claim_types: claim_types.deep_view(),
                    status: status@,
                }
            },
        }
    }
}

/// JSON payload of a `new_commitment` event.
pub struct NewCommitmentShim {
    pub commitment: String,
    pub leaf_index: i64,
    pub deposit_amount: Option<String>,
    pub asset: Option<String>,
}

/// JSON payload of a `nullifier` event.
pub struct NullifierShim {
    pub nullifier: String,
}

/// JSON payload of a `note` event.
pub struct NoteShim {
    pub commitment: String,
    pub ephemeral_pubkey: String,
    pub ciphertext: String,
}

/// JSON payload of a `withdrawal` event.
pub struct WithdrawalShim {
    pub amount: String,
    pub asset: String,
}

/// JSON payload of an `issuer` event.
pub struct IssuerShim {
    pub issuer_id: String,
    pub name: String,
    pub public_key: String,
    pub claim_types: Vec<String>,
    pub status: String,
}

/// A parsed event payload.
pub enum EventPayload {
    NewCommitment(NewCommitmentShim),
    Nullifier(NullifierShim),
    Note(NoteShim),
    Withdrawal(WithdrawalShim),
    Issuer(IssuerShim),
}

/// The recognised event names.
#[derive(Debug, Clone, Copy, PartialEq, Eq, Structural)]
pub enum EventKind {
    NewCommitment,
    Nullifier,
    Note,
    Withdrawal,
    Issuer,
}

// ---------------------------------------------------------------------------
// Specification
// ---------------------------------------------------------------------------

pub open spec fn is_name_char(c: char) -> bool {
    (97 <= c as u32 <= 122) || c == '_'
}

/// The event name carried by the first topic: a plain name of lower-case
/// ASCII letters and underscores (anything else, e.g. a base64 XDR symbol,
/// is not recognised).
pub open spec fn spec_event_name(topic: Seq<Seq<char>>) -> Option<Seq<char>> {
    if topic.len() > 0 && forall|i: int| 0 <= i < topic[0].len() ==> #[trigger] is_name_char(topic[0][i]) {
        Some(topic[0])
    } else {
        None
    }
}

pub open spec fn spec_event_kind(name: Seq<char>) -> Option<EventKind> {
    if name == "new_commitment"@ {
        Some(EventKind::NewCommitment)
    } else if name == "nullifier"@ {
        Some(EventKind::Nullifier)
    } else if name == "note"@ {
        Some(EventKind::Note)
    } else if name == "withdrawal"@ {
        Some(EventKind::Withdrawal)
    } else if name == "issuer"@ {
        Some(EventKind::Issuer)
    } else {
        None
    }
}

/// Bytes of a hex field (leading `0x` ignored).
pub open spec fn spec_hex_bytes(s: Seq<char>) -> Option<Seq<u8>> {
    hex_decoding(strip_0x(s))
}

/// Bytes of a hex field that must be exactly 32 bytes long.
pub open spec fn spec_hex32(s: Seq<char>) -> Option<Seq<u8>> {
    match spec_hex_bytes(s) {
        Some(b) => if b.len() == 32 {
            Some(b)
        } else {
            None
        },
        None => None,
    }
}

/// An `i128` amount written in decimal.
pub open spec fn spec_amount(s: Seq<char>) -> Option<i128> {
    match parsed_int(s, true, i128::MIN as int, i128::MAX as int) {
        Some(v) => Some(v as i128),
        None => None,
    }
}

pub open spec fn opt_string_view(s: Option<String>) -> Option<Seq<char>> {
    match s {
        Some(x) => Some(x@),
        None => None,
    }
}

/// The typed event a payload of the given kind stands for.
pub open spec fn spec_decode_payload(kind: EventKind, payload: EventPayload) -> Option<PoolEventView> {
    match (kind, payload) {
        (EventKind::NewCommitment, EventPayload::NewCommitment(v)) => match spec_hex32(v.commitment@) {
            Some(c) => Some(
                PoolEventView::NewCommitment {
                    commitment: c,
                    leaf_index: v.leaf_index,
                    deposit_amount: match v.deposit_amount {
                        Some(a) => spec_amount(a@),
                        None => None,
                    },
                    asset: opt_string_view(v.asset),
                },
            ),
            None => None,
        },
        (EventKind::Nullifier, EventPayload::Nullifier(v)) => match spec_hex32(v.nullifier@) {
            Some(n) => Some(PoolEventView::NullifierSpent { nullifier: n }),
            None => None,
        },
        (EventKind::Note, EventPayload::Note(v)) => match (
            spec_hex32(v.commitment@),
            spec_hex_bytes(v.ephemeral_pubkey@),
            spec_hex_bytes(v.ciphertext@),
        ) {
            (Some(c), Some(e), Some(t)) => Some(
                PoolEventView::EncryptedNote { commitment: c, ephemeral_pubkey: e, ciphertext: t },
            ),
            _ => None,
        },
        (EventKind::Withdrawal, EventPayload::Withdrawal(v)) => match spec_amount(v.amount@) {
            Some(a) => Some(PoolEventView::Withdrawal { amount: a, asset: v.asset@ }),
            None => None,
        },
        (EventKind::Issuer, EventPayload::Issuer(v)) => match spec_hex_bytes(v.public_key@) {
            Some(k) => Some(
                PoolEventView::IssuerUpdated {
                    issuer_id: v.issuer_id@,
                    name: v.name@,
                    public_key: k,
                    claim_types: v.claim_types.deep_view(),
                    status: v.status@,
                },
            ),
            None => None,
        },
        _ => None,
    }
}

/// A decoded JSON payload carries its own fields, unchanged, into the typed
/// event: every text is the payload's text, bytes are the hex decoding of
/// the payload's hex, and amounts the decimal value of its amount text. A
/// payload of another kind than the name announces decodes to nothing.
pub proof fn law_payload_fields_carried(kind: EventKind, payload: EventPayload)
    ensures
        ({
            let r = spec_decode_payload(kind, payload);
            match payload {
                EventPayload::NewCommitment(v) => {
                    &&& (r is Some <==> (kind == EventKind::NewCommitment && spec_hex32(v.commitment@) is Some))
                    &&& r is Some ==> (r matches Some(PoolEventView::NewCommitment { commitment, leaf_index, deposit_amount, asset })
                        && commitment == spec_hex32(v.commitment@).unwrap()
                        && leaf_index == v.leaf_index
                        && deposit_amount == (match v.deposit_amount {
                            Some(a) => spec_amount(a@),
                            None => None,
                        })
                        && asset == opt_string_view(v.asset))
                },
                EventPayload::Nullifier(v) => {
                    &&& (r is Some <==> (kind == EventKind::Nullifier && spec_hex32(v.nullifier@) is Some))
                    &&& r is Some ==> (r matches Some(PoolEventView::NullifierSpent { nullifier })
                        && nullifier == spec_hex32(v.nullifier@).unwrap())
                },
                EventPayload::Note(v) => {
                    &&& (r is Some <==> (kind == EventKind::Note && spec_hex32(v.commitment@) is Some
                        && spec_hex_bytes(v.ephemeral_pubkey@) is Some && spec_hex_bytes(v.ciphertext@) is Some))
                    &&& r is Some ==> (r matches Some(PoolEventView::EncryptedNote { commitment, ephemeral_pubkey, ciphertext })
                        && commitment == spec_hex32(v.commitment@).unwrap()
                        && ephemeral_pubkey == spec_hex_bytes(v.ephemeral_pubkey@).unwrap()
                        && ciphertext == spec_hex_bytes(v.ciphertext@).unwrap())
                },
                EventPayload::Withdrawal(v) => {
                    &&& (r is Some <==> (kind == EventKind::Withdrawal && spec_amount(v.amount@) is Some))
                    &&& r is Some ==> (r matches Some(PoolEventView::Withdrawal { amount, asset })
                        && amount == spec_amount(v.amount@).unwrap() && asset == v.asset@)
                },
                EventPayload::Issuer(v) => {
                    &&& (r is Some <==> (kind == EventKind::Issuer && spec_hex_bytes(v.public_key@) is Some))
                    &&& r is Some ==> (r matches Some(PoolEventView::IssuerUpdated { issuer_id, name, public_key, claim_types, status })
                        && issuer_id == v.issuer_id@ && name == v.name@
                        && public_key == spec_hex_bytes(v.public_key@).unwrap()
                        && claim_types == v.claim_types.deep_view() && status == v.status@)
                },
            }
        }),
{
}

// ---------------------------------------------------------------------------
// The XDR layout
// ---------------------------------------------------------------------------

/// The kind an event name symbol announces.
pub open spec fn spec_xdr_kind(name: Seq<u8>) -> Option<EventKind> {
    if name == ascii_bytes("new_commitment"@) {
        Some(EventKind::NewCommitment)
    } else if name == ascii_bytes("nullifier"@) {
        Some(EventKind::Nullifier)
    } else if name == ascii_bytes("note"@) {
        Some(EventKind::Note)
    } else if name == ascii_bytes("withdrawal"@) {
        Some(EventKind::Withdrawal)
    } else if name == ascii_bytes("issuer"@) {
        Some(EventKind::Issuer)
    } else {
        None
    }
}

/// The text a string or symbol holds, when it is valid UTF-8.
pub open spec fn spec_text(v: XdrValue) -> Option<Seq<char>> {
    match v {
        XdrValue::Str(b) => if valid_utf8(b) {
            Some(decode_utf8(b))
        } else {
            None
        },
        XdrValue::Sym(b) => if valid_utf8(b) {
            Some(decode_utf8(b))
        } else {
            None
        },
        _ => None,
    }
}

/// The text of a field that must be a string or symbol.
pub open spec fn spec_text_field(v: Option<XdrValue>) -> Option<Seq<char>> {
    match v {
        Some(x) => spec_text(x),
        None => None,
    }
}

/// The texts of a vector, when each is valid UTF-8.
pub open spec fn spec_texts_utf8(ts: Seq<Seq<u8>>) -> Option<Seq<Seq<char>>> {
    if forall|i: int| 0 <= i < ts.len() ==> #[trigger] valid_utf8(ts[i]) {
        Some(ts.map_values(|t: Seq<u8>| decode_utf8(t)))
    } else {
        None
    }
}

/// The bytes of a field that must be bytes.
pub open spec fn spec_bytes_field(v: Option<XdrValue>) -> Option<Seq<u8>> {
    match v {
        Some(XdrValue::Bytes(b)) => Some(b),
        _ => None,
    }
}

/// The bytes of a field that must be exactly 32 bytes.
pub open spec fn spec_bytes32_field(v: Option<XdrValue>) -> Option<Seq<u8>> {
    match v {
        Some(XdrValue::Bytes(b)) => if b.len() == 32 {
            Some(b)
        } else {
            None
        },
        _ => None,
    }
}

/// The value of a field that must be an integer within `min..=max`.
pub open spec fn spec_int_field(v: Option<XdrValue>, min: int, max: int) -> Option<int> {
    match v {
        Some(XdrValue::Int(x)) => if min <= x <= max {
            Some(x)
        } else {
            None
        },
        _ => None,
    }
}

/// The typed event an XDR payload of the given kind stands for.
pub open spec fn spec_decode_xdr_payload(kind: EventKind, payload: XdrPayload) -> Option<PoolEventView> {
    match payload {
        XdrPayload::Entries(es) => {
            let f = |k: Seq<char>| spec_field(es, ascii_bytes(k));
            match kind {
                EventKind::NewCommitment => match (
                    spec_bytes32_field(f("commitment"@)),
                    spec_int_field(f("leaf_index"@), i64::MIN as int, i64::MAX as int),
                ) {
                    (Some(c), Some(li)) => Some(
                        PoolEventView::NewCommitment {
                            commitment: c,
                            leaf_index: li as i64,
                            deposit_amount: match spec_int_field(
                                f("deposit_amount"@),
                                i128::MIN as int,
                                i128::MAX as int,
                            ) {
                                Some(a) => Some(a as i128),
                                None => None,
                            },
                            asset: spec_text_field(f("asset"@)),
                        },
                    ),
                    _ => None,
                },
                EventKind::Nullifier => match spec_bytes32_field(f("nullifier"@)) {
                    Some(n) => Some(PoolEventView::NullifierSpent { nullifier: n }),
                    None => None,
                },
                EventKind::Note => match (
                    spec_bytes32_field(f("commitment"@)),
                    spec_bytes_field(f("ephemeral_pubkey"@)),
                    spec_bytes_field(f("ciphertext"@)),
                ) {
                    (Some(c), Some(e), Some(x)) => Some(
                        PoolEventView::EncryptedNote { commitment: c, ephemeral_pubkey: e, ciphertext: x },
                    ),
                    _ => None,
                },
                EventKind::Withdrawal => match (
                    spec_int_field(f("amount"@), i128::MIN as int, i128::MAX as int),
                    spec_text_field(f("asset"@)),
                ) {
                    (Some(a), Some(t)) => Some(PoolEventView::Withdrawal { amount: a as i128, asset: t }),
                    _ => None,
                },
                EventKind::Issuer => match (
                    spec_text_field(f("issuer_id"@)),
                    spec_text_field(f("name"@)),
                    spec_bytes_field(f("public_key"@)),
                    f("claim_types"@),
                    spec_text_field(f("status"@)),
                ) {
                    (Some(i), Some(n), Some(k), Some(XdrValue::Texts(ts)), Some(st)) => match spec_texts_utf8(ts) {
                        Some(cs) => Some(
                            PoolEventView::IssuerUpdated {
                                issuer_id: i,
                                name: n,
                                public_key: k,
                                claim_types: cs,
                                status: st,
                            },
                        ),
                        None => None,
                    },
                    _ => None,
                },
            }
        },
        XdrPayload::Single(XdrValue::Bytes(b)) => if kind == EventKind::Nullifier && b.len() == 32 {
            Some(PoolEventView::NullifierSpent { nullifier: b })
        } else {
            None
        },
        _ => None,
    }
}

/// A decoded XDR payload carries its own fields, unchanged, into the typed
/// event: each field of the typed event is the map entry of the same name
/// (texts decoded from UTF-8), and a bare-bytes payload is a nullifier.
pub proof fn law_xdr_fields_carried(kind: EventKind, payload: XdrPayload)
    ensures
        ({
            let r = spec_decode_xdr_payload(kind, payload);
            match payload {
                XdrPayload::Entries(es) => {
                    let f = |k: Seq<char>| spec_field(es, ascii_bytes(k));
                    &&& (kind == EventKind::NewCommitment && r is Some) ==> (r matches Some(
                        PoolEventView::NewCommitment { commitment, leaf_index, deposit_amount, asset },
                    ) && f("commitment"@) == Some(XdrValue::Bytes(commitment)) && commitment.len() == 32
                        && f("leaf_index"@) == Some(XdrValue::Int(leaf_index as int))
                        && deposit_amount == (match spec_int_field(f("deposit_amount"@), i128::MIN as int, i128::MAX as int) {
                            Some(a) => Some(a as i128),
                            None => None,
                        })
                        && asset == spec_text_field(f("asset"@)))
                    &&& (kind == EventKind::Nullifier && r is Some) ==> (r matches Some(
                        PoolEventView::NullifierSpent { nullifier },
                    ) && f("nullifier"@) == Some(XdrValue::Bytes(nullifier)) && nullifier.len() == 32)
                    &&& (kind == EventKind::Note && r is Some) ==> (r matches Some(
                        PoolEventView::EncryptedNote { commitment, ephemeral_pubkey, ciphertext },
                    ) && f("commitment"@) == Some(XdrValue::Bytes(commitment))
                        && f("ephemeral_pubkey"@) == Some(XdrValue::Bytes(ephemeral_pubkey))
                        && f("ciphertext"@) == Some(XdrValue::Bytes(ciphertext)))
                    &&& (kind == EventKind::Withdrawal && r is Some) ==> (r matches Some(
                        PoolEventView::Withdrawal { amount, asset },
                    ) && f("amount"@) == Some(XdrValue::Int(amount as int))
                        && spec_text_field(f("asset"@)) == Some(asset))
                    &&& (kind == EventKind::Issuer && r is Some) ==> (r matches Some(
                        PoolEventView::IssuerUpdated { issuer_id, name, public_key, claim_types, status },
                    ) && spec_text_field(f("issuer_id"@)) == Some(issuer_id)
                        && spec_text_field(f("name"@)) == Some(name)
                        && f("public_key"@) == Some(XdrValue::Bytes(public_key))
                        && (f("claim_types"@) matches Some(XdrValue::Texts(ts))
                            && spec_texts_utf8(ts) == Some(claim_types))
                        && spec_text_field(f("status"@)) == Some(status))
                },
                XdrPayload::Single(v) => {
                    &&& r is Some <==> (kind == EventKind::Nullifier && (v matches XdrValue::Bytes(b) && b.len() == 32))
                    &&& r is Some ==> (r matches Some(PoolEventView::NullifierSpent { nullifier })
                        && v == XdrValue::Bytes(nullifier))
                },
            }
        }),
{
}

/// What a base64-XDR event decodes to: its first topic must be a symbol
/// naming a recognised event, and its value a payload of that kind.
pub open spec fn spec_decode_xdr(topic: Seq<Seq<char>>, value: Seq<char>) -> Option<PoolEventView> {
    if topic.len() == 0 {
        None
    } else {
        match base64_standard_decoding(topic[0]) {
            Some(tb) => match spec_whole_symbol(tb) {
                Some(name) => match spec_xdr_kind(name) {
                    Some(kind) => match base64_standard_decoding(value) {
                        Some(vb) => match spec_payload(vb) {
                            Some(p) => spec_decode_xdr_payload(kind, p),
                            None => None,
                        },
                        None => None,
                    },
                    None => None,
                },
                None => None,
            },
            None => None,
        }
    }
}

/// What an event decodes to. A plain-text name (lower-case letters and
/// `_`) takes the JSON payload parsed for the kind it announces; any other
/// first topic is read as base64 XDR. Nothing is decoded unless the name
/// is recognised and the payload passes the field checks.
pub open spec fn spec_decode(raw: RawEvent, payload: Option<EventPayload>) -> Option<PoolEventView> {
    match spec_event_name(raw.topic.deep_view()) {
        Some(name) => match spec_event_kind(name) {
            Some(kind) => match payload {
                Some(p) => spec_decode_payload(kind, p),
                None => None,
            },
            None => None,
        },
        None => spec_decode_xdr(raw.topic.deep_view(), raw.value@),
    }
}

// ---------------------------------------------------------------------------
// Implementation
// ---------------------------------------------------------------------------

/// First topic = event name, when it is a plain lower-case name.
pub fn event_name(raw: &RawEvent) -> (name: Option<String>)
    ensures
        opt_string_view(name) == spec_event_name(raw.topic.deep_view()),
{
    if raw.topic.len() == 0 {
        return None;
    }
    let first = &raw.topic[0];
    let s = first.as_str();
    let n = s.unicode_len();
    for i in 0..n
        invariant
            n == s@.len(),
            s@ == raw.topic.deep_view()[0],
            forall|k: int| 0 <= k < i ==> #[trigger] is_name_char(s@[k]),
    {
        let c = s.get_char(i);
        if !(('a' <= c && c <= 'z') || c == '_') {
            assert(!is_name_char(s@[i as int]));
            return None;
        }
    }
    Some(first.clone())
}

/// The kind of a recognised event name.
pub fn event_kind(name: &str) -> (kind: Option<EventKind>)
    ensures
        kind == spec_event_kind(name@),
{
    if str_equals(name, "new_commitment") {
        Some(EventKind::NewCommitment)
    } else if str_equals(name, "nullifier") {
        Some(EventKind::Nullifier)
    } else if str_equals(name, "note") {
        Some(EventKind::Note)
    } else if str_equals(name, "withdrawal") {
        Some(EventKind::Withdrawal)
    } else if str_equals(name, "issuer") {
        Some(EventKind::Issuer)
    } else {
        None
    }
}

/// Bytes of a hex field, ignoring any leading `0x`.
pub fn hex_bytes(s: &str) -> (bytes: Option<Vec<u8>>)
    ensures
        match bytes {
            Some(b) => spec_hex_bytes(s@) == Some(b@),
            None => spec_hex_bytes(s@) is None,
        },
{
    decode_hex0x(s)
}

/// A 32-byte hex field.
pub fn hex32(s: &str) -> (node: Option<[u8; 32]>)
    ensures
        match node {
            Some(b) => spec_hex32(s@) == Some(b@),
            None => spec_hex32(s@) is None,
        },
{
    let bytes = hex_bytes(s)?;
    if bytes.len() != 32 {
        return None;
    }
    let mut out = [0u8; 32];
    for i in 0..32
        invariant
            bytes@.len() == 32,
            forall|k: int| 0 <= k < i ==> out@[k] == bytes@[k],
    {
        out[i] = bytes[i];
    }
    assert(out@ =~= bytes@);
    Some(out)
}

fn opt_string_clone(s: &Option<String>) -> (c: Option<String>)
    ensures
        opt_string_view(c) == opt_string_view(*s),
{
    match s {
        Some(x) => Some(x.clone()),
        None => None,
    }
}

fn strings_clone(v: &Vec<String>) -> (c: Vec<String>)
    ensures
        c.deep_view() == v.deep_view(),
{
    let mut c: Vec<String> = Vec::new();
    for i in 0..v.len()
        invariant
            c@.len() == i,
            forall|k: int| 0 <= k < i ==> (#[trigger] c@[k])@ == v@[k]@,
    {
        c.push(v[i].clone());
    }
    assert(c.deep_view() =~= v.deep_view());
    c
}

/// Build the typed event for a payload of the given kind.
pub fn decode_payload(kind: EventKind, payload: &EventPayload) -> (event: Option<PoolEvent>)
    ensures
        match event {
            Some(e) => spec_decode_payload(kind, *payload) == Some(e@),
            None => spec_decode_payload(kind, *payload) is None,
        },
{
    match (kind, payload) {
        (EventKind::NewCommitment, EventPayload::NewCommitment(v)) => {
            let commitment = hex32(v.commitment.as_str())?;
            let deposit_amount = match &v.deposit_amount {
                Some(a) => parse_i128(a.as_str()),
                None => None,
            };
            Some(
                PoolEvent::NewCommitment {
                    commitment,
                    leaf_index: v.leaf_index,
                    deposit_amount,
                    asset: opt_string_clone(&v.asset),
                },
            )
        },
        (EventKind::Nullifier, EventPayload::Nullifier(v)) => {
            let nullifier = hex32(v.nullifier.as_str())?;
            Some(PoolEvent::NullifierSpent { nullifier })
        },
        (EventKind::Note, EventPayload::Note(v)) => {
            let commitment = hex32(v.commitment.as_str())?;
            let ephemeral_pubkey = hex_bytes(v.ephemeral_pubkey.as_str())?;
            let ciphertext = hex_bytes(v.ciphertext.as_str())?;
            Some(PoolEvent::EncryptedNote { commitment, ephemeral_pubkey, ciphertext })
        },
        (EventKind::Withdrawal, EventPayload::Withdrawal(v)) => {
            let amount = parse_i128(v.amount.as_str())?;
            Some(PoolEvent::Withdrawal { amount, asset: v.asset.clone() })
        },
        (EventKind::Issuer, EventPayload::Issuer(v)) => {
            let public_key = hex_bytes(v.public_key.as_str())?;
            Some(
                PoolEvent::IssuerUpdated {
                    issuer_id: v.issuer_id.clone(),
                    name: v.name.clone(),
                    public_key,
                    claim_types: strings_clone(&v.claim_types),
                    status: v.status.clone(),
                },
            )
        },
        _ => None,
    }
}

/// The kind an event name symbol announces.
pub fn xdr_kind(name: &Vec<u8>) -> (kind: Option<EventKind>)
    ensures
        kind == spec_xdr_kind(name@),
{
    if bytes_are(name, "new_commitment") {
        Some(EventKind::NewCommitment)
    } else if bytes_are(name, "nullifier") {
        Some(EventKind::Nullifier)
    } else if bytes_are(name, "note") {
        Some(EventKind::Note)
    } else if bytes_are(name, "withdrawal") {
        Some(EventKind::Withdrawal)
    } else if bytes_are(name, "issuer") {
        Some(EventKind::Issuer)
    } else {
        None
    }
}

fn clone_bytes(b: &Vec<u8>) -> (c: Vec<u8>)
    ensures
        c@ == b@,
{
    let mut c: Vec<u8> = Vec::with_capacity(b.len());
    for i in 0..b.len()
        invariant
            c@ == b@.take(i as int),
    {
        c.push(b[i]);
        assert(c@ == b@.take(i + 1));
    }
    assert(b@.take(b@.len() as int) == b@);
    c
}

fn text_field(v: Option<&ScVal>) -> (t: Option<String>)
    ensures
        opt_string_view(t) == spec_text_field(match v {
            Some(x) => Some(x@),
            None => None,
        }),
{
    match v {
        Some(ScVal::Str(b)) => utf8_text(clone_bytes(b)),
        Some(ScVal::Sym(b)) => utf8_text(clone_bytes(b)),
        _ => None,
    }
}

fn bytes_field(v: Option<&ScVal>) -> (r: Option<Vec<u8>>)
    ensures
        match r {
            Some(b) => spec_bytes_field(match v {
                Some(x) => Some(x@),
                None => None,
            }) == Some(b@),
            None => spec_bytes_field(match v {
                Some(x) => Some(x@),
                None => None,
            }) is None,
        },
{
    match v {
        Some(ScVal::Bytes(b)) => Some(clone_bytes(b)),
        _ => None,
    }
}

fn to_node(b: &Vec<u8>) -> (n: [u8; 32])
    requires
        b@.len() == 32,
    ensures
        n@ == b@,
{
    let mut out = [0u8; 32];
    for i in 0..32
        invariant
            b@.len() == 32,
            forall|k: int| 0 <= k < i ==> out@[k] == b@[k],
    {
        out[i] = b[i];
    }
    assert(out@ =~= b@);
    out
}

fn bytes32_field(v: Option<&ScVal>) -> (r: Option<[u8; 32]>)
    ensures
        match r {
            Some(b) => spec_bytes32_field(match v {
                Some(x) => Some(x@),
                None => None,
            }) == Some(b@),
            None => spec_bytes32_field(match v {
                Some(x) => Some(x@),
                None => None,
            }) is None,
        },
{
    match v {
        Some(ScVal::Bytes(b)) => if b.len() == 32 {
            Some(to_node(b))
        } else {
            None
        },
        _ => None,
    }
}

fn i64_field(v: Option<&ScVal>) -> (r: Option<i64>)
    ensures
        match r {
            Some(x) => spec_int_field(match v {
                Some(y) => Some(y@),
                None => None,
            }, i64::MIN as int, i64::MAX as int) == Some(x as int),
            None => spec_int_field(match v {
                Some(y) => Some(y@),
                None => None,
            }, i64::MIN as int, i64::MAX as int) is None,
        },
{
    match v {
        Some(ScVal::Int(x)) => if i64::MIN as i128 <= *x && *x <= i64::MAX as i128 {
            Some(*x as i64)
        } else {
            None
        },
        _ => None,
    }
}

fn i128_field(v: Option<&ScVal>) -> (r: Option<i128>)
    ensures
        match r {
            Some(x) => spec_int_field(match v {
                Some(y) => Some(y@),
                None => None,
            }, i128::MIN as int, i128::MAX as int) == Some(x as int),
            None => spec_int_field(match v {
                Some(y) => Some(y@),
                None => None,
            }, i128::MIN as int, i128::MAX as int) is None,
        },
{
    match v {
        Some(ScVal::Int(x)) => Some(*x),
        _ => None,
    }
}

fn texts_utf8(ts: &Vec<Vec<u8>>) -> (r: Option<Vec<String>>)
    ensures
        match r {
            Some(v) => spec_texts_utf8(texts_view(ts@)) == Some(v.deep_view()),
            None => spec_texts_utf8(texts_view(ts@)) is None,
        },
{
    let ghost tv = texts_view(ts@);
    let mut out: Vec<String> = Vec::new();
    for i in 0..ts.len()
        invariant
            tv == texts_view(ts@),
            out@.len() == i,
            forall|k: int| 0 <= k < i ==> #[trigger] valid_utf8(tv[k]),
            forall|k: int| 0 <= k < i ==> (#[trigger] out@[k])@ == decode_utf8(tv[k]),
    {
        match utf8_text(clone_bytes(&ts[i])) {
            Some(t) => {
                out.push(t);
            },
            None => {
                assert(!valid_utf8(tv[i as int]));
                return None;
            },
        }
    }
    assert(out.deep_view() =~= tv.map_values(|t: Seq<u8>| decode_utf8(t)));
    Some(out)
}

/// Build the typed event for an XDR payload of the given kind.
pub fn decode_xdr_payload(kind: EventKind, payload: &ScPayload) -> (event: Option<PoolEvent>)
    ensures
        match event {
            Some(e) => spec_decode_xdr_payload(kind, payload@) == Some(e@),
            None => spec_decode_xdr_payload(kind, payload@) is None,
        },
{
    match payload {
        ScPayload::Entries(es) => match kind {
            EventKind::NewCommitment => {
                let commitment = bytes32_field(field(es, "commitment"))?;
                let leaf_index = i64_field(field(es, "leaf_index"))?;
                let deposit_amount = i128_field(field(es, "deposit_amount"));
                let asset = text_field(field(es, "asset"));
                Some(PoolEvent::NewCommitment { commitment, leaf_index, deposit_amount, asset })
            },
            EventKind::Nullifier => {
                let nullifier = bytes32_field(field(es, "nullifier"))?;
                Some(PoolEvent::NullifierSpent { nullifier })
            },
            EventKind::Note => {
                let commitment = bytes32_field(field(es, "commitment"))?;
                let ephemeral_pubkey = bytes_field(field(es, "ephemeral_pubkey"))?;
                let ciphertext = bytes_field(field(es, "ciphertext"))?;
                Some(PoolEvent::EncryptedNote { commitment, ephemeral_pubkey, ciphertext })
            },
            EventKind::Withdrawal => {
                let amount = i128_field(field(es, "amount"))?;
                let asset = text_field(field(es, "asset"))?;
                Some(PoolEvent::Withdrawal { amount, asset })
            },
            EventKind::Issuer => {
                let issuer_id = text_field(field(es, "issuer_id"))?;
                let name = text_field(field(es, "name"))?;
                let public_key = bytes_field(field(es, "public_key"))?;
                let claim_field = field(es, "claim_types");
                let status = text_field(field(es, "status"))?;
                let claim_types = match claim_field {
                    Some(ScVal::Texts(ts)) => texts_utf8(ts)?,
                    _ => return None,
                };
                Some(PoolEvent::IssuerUpdated { issuer_id, name, public_key, claim_types, status })
            },
        },
        ScPayload::Single(ScVal::Bytes(b)) => {
            if kind == EventKind::Nullifier && b.len() == 32 {
                Some(PoolEvent::NullifierSpent { nullifier: to_node(b) })
            } else {
                None
            }
        },
        _ => None,
    }
}

/// Decode a base64-XDR event.
pub fn decode_xdr(raw: &RawEvent) -> (event: Option<PoolEvent>)
    ensures
        match event {
            Some(e) => spec_decode_xdr(raw.topic.deep_view(), raw.value@) == Some(e@),
            None => spec_decode_xdr(raw.topic.deep_view(), raw.value@) is None,
        },
{
    if raw.topic.len() == 0 {
        return None;
    }
    assert(raw.topic.deep_view()[0] == raw.topic@[0]@);
    let topic = base64_decode(raw.topic[0].as_str())?;
    let name = read_whole_symbol(topic.as_slice())?;
    let kind = xdr_kind(&name)?;
    let value = base64_decode(raw.value.as_str())?;
    let payload = read_payload(value.as_slice())?;
    decode_xdr_payload(kind, &payload)
}

/// Decode a raw event. An event with a plain-text name takes `payload`,
/// its JSON payload as parsed for the kind the name announces (`None`
/// where it did not parse); any other event is read as base64 XDR. `None`
/// if it is not an Attesta event or the payload fails a field check.
pub fn decode(raw: &RawEvent, payload: Option<EventPayload>) -> (event: Option<PoolEvent>)
    ensures
        match event {
            Some(e) => spec_decode(*raw, payload) == Some(e@),
            None => spec_decode(*raw, payload) is None,
        },
{
    match event_name(raw) {
        Some(name) => {
            let kind = event_kind(name.as_str())?;
            let payload = payload?;
            decode_payload(kind, &payload)
        },
        None => decode_xdr(raw),
    }
}

} // verus!
