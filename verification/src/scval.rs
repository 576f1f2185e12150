//! ScVal decoding.
//!
//! Soroban events carry base64-encoded XDR `ScVal` for both topics and data.
//! This module decodes them into [`ScValDecoded`] by reading the XDR
//! discriminants by hand, and renders decoded values as compact text.

use base64::engine::general_purpose::STANDARD;
use base64::Engine;
use vstd::prelude::*;
use vstd::utf8::{decode_utf8, valid_utf8};

use crate::text::{
    dec_int, dec_nat, decimal, hex_bytes, push_decimal, push_hex, signed_decimal, IntParseFailure,
    lemma_decimal_round_trip, lemma_signed_decimal, parse_unsigned,
};

verus! {

/// A decoded Soroban ScVal — the human-friendly representation of any
/// value that can appear in a contract event's topic or data payload.
/// 128-bit integers are kept as decimal text; an `ScAddress` is shown as
/// `G[hex]` or `C[hex]`; nested vectors and maps report placeholder
/// elements (`item[i]`, `key[i]`/`val[i]`) rather than their contents; a value
/// that cannot be decoded is kept as `Raw` base64.
#[derive(Debug, PartialEq)]
pub enum ScValDecoded {
    Bool(bool),
    Void,
    I32(i32),
    U32(u32),
    I64(i64),
    U64(u64),
    I128(String),
    U128(String),
    Symbol(String),
    Bytes(Vec<u8>),
    String(String),
    Address(String),
    Vec(Vec<ScValDecoded>),
    ScMap(Vec<(ScValDecoded, ScValDecoded)>),
    Error { code: u32, kind: String },
    Raw(String),
}

/// The mathematical value of an [`ScValDecoded`].
pub enum ScValView {
    Bool(bool),
    Void,
    I32(i32),
    U32(u32),
    I64(i64),
    U64(u64),
    I128(Seq<char>),
    U128(Seq<char>),
    Symbol(Seq<char>),
    Bytes(Seq<u8>),
    String(Seq<char>),
    Address(Seq<char>),
    Vec(Seq<ScValView>),
    ScMap(Seq<(ScValView, ScValView)>),
    Error { code: u32, kind: Seq<char> },
    Raw(Seq<char>),
}

pub open spec fn view_items(items: Seq<ScValDecoded>) -> Seq<ScValView>
    decreases items,
{
    if items.len() == 0 {
        Seq::empty()
    } else {
        view_items(items.drop_last()).push(items.last().view_value())
    }
}

pub open spec fn view_pairs(pairs: Seq<(ScValDecoded, ScValDecoded)>) -> Seq<(ScValView, ScValView)>
    decreases pairs,
{
    if pairs.len() == 0 {
        Seq::empty()
    } else {
        view_pairs(pairs.drop_last()).push((pairs.last().0.view_value(), pairs.last().1.view_value()))
    }
}

impl ScValDecoded {
    pub open spec fn view_value(self) -> ScValView
        decreases self,
    {
        match self {
            ScValDecoded::Bool(b) => ScValView::Bool(b),
            ScValDecoded::Void => ScValView::Void,
            ScValDecoded::I32(v) => ScValView::I32(v),
            ScValDecoded::U32(v) => ScValView::U32(v),
            ScValDecoded::I64(v) => ScValView::I64(v),
            ScValDecoded::U64(v) => ScValView::U64(v),
            ScValDecoded::I128(s) => ScValView::I128(s@),
            ScValDecoded::U128(s) => ScValView::U128(s@),
            ScValDecoded::Symbol(s) => ScValView::Symbol(s@),
            ScValDecoded::Bytes(b) => ScValView::Bytes(b@),
            ScValDecoded::String(s) => ScValView::String(s@),
            ScValDecoded::Address(s) => ScValView::Address(s@),
            ScValDecoded::Vec(items) => ScValView::Vec(view_items(items@)),
            ScValDecoded::ScMap(pairs) => ScValView::ScMap(view_pairs(pairs@)),
            ScValDecoded::Error { code, kind } => ScValView::Error { code, kind: kind@ },
            ScValDecoded::Raw(s) => ScValView::Raw(s@),
        }
    }
}

impl ScValDecoded {
    /// A copy of this value, element by element.
    pub fn deep_copy(&self) -> (r: Self)
        ensures
            r@ == self@,
        decreases self,
    {
        match self {
            ScValDecoded::Bool(b) => ScValDecoded::Bool(*b),
            ScValDecoded::Void => ScValDecoded::Void,
            ScValDecoded::I32(v) => ScValDecoded::I32(*v),
            ScValDecoded::U32(v) => ScValDecoded::U32(*v),
            ScValDecoded::I64(v) => ScValDecoded::I64(*v),
            ScValDecoded::U64(v) => ScValDecoded::U64(*v),
            ScValDecoded::I128(s) => ScValDecoded::I128(s.clone()),
            ScValDecoded::U128(s) => ScValDecoded::U128(s.clone()),
            ScValDecoded::Symbol(s) => ScValDecoded::Symbol(s.clone()),
            ScValDecoded::Bytes(b) => ScValDecoded::Bytes(b.clone()),
            ScValDecoded::String(s) => ScValDecoded::String(s.clone()),
            ScValDecoded::Address(s) => ScValDecoded::Address(s.clone()),
            ScValDecoded::Vec(items) => {
                let mut out: Vec<ScValDecoded> = Vec::new();
                let mut i: usize = 0;
                while i < items.len()
                    invariant
                        i <= items@.len(),
                        *self == ScValDecoded::Vec(*items),
                        view_items(out@) == view_items(items@.take(i as int)),
                    decreases items@.len() - i,
                {
                    assert(decreases_to!(*self => (*self)->Vec_0));
                    assert(decreases_to!(*items => items@));
                    assert(decreases_to!(items@ => items@[i as int]));
                    let c = items[i].deep_copy();
                    proof {
                        assert(items@.take(i + 1).drop_last() =~= items@.take(i as int));
                        assert(out@.push(c).drop_last() =~= out@);
                    }
                    out.push(c);
                    i = i + 1;
                }
                assert(items@.take(items@.len() as int) =~= items@);
                ScValDecoded::Vec(out)
            },
            ScValDecoded::ScMap(pairs) => {
                let mut out: Vec<(ScValDecoded, ScValDecoded)> = Vec::new();
                let mut i: usize = 0;
                while i < pairs.len()
                    invariant
                        i <= pairs@.len(),
                        *self == ScValDecoded::ScMap(*pairs),
                        view_pairs(out@) == view_pairs(pairs@.take(i as int)),
                    decreases pairs@.len() - i,
                {
                    assert(decreases_to!(*self => (*self)->ScMap_0));
                    assert(decreases_to!(*pairs => pairs@));
                    assert(decreases_to!(pairs@ => pairs@[i as int]));
                    assert(decreases_to!(pairs@[i as int] => pairs@[i as int].0));
                    assert(decreases_to!(pairs@[i as int] => pairs@[i as int].1));
                    let k = pairs[i].0.deep_copy();
                    let v = pairs[i].1.deep_copy();
                    proof {
                        assert(pairs@.take(i + 1).drop_last() =~= pairs@.take(i as int));
                        assert(out@.push((k, v)).drop_last() =~= out@);
                    }
                    out.push((k, v));
                    i = i + 1;
                }
                assert(pairs@.take(pairs@.len() as int) =~= pairs@);
                ScValDecoded::ScMap(out)
            },
            ScValDecoded::Error { code, kind } => ScValDecoded::Error { code: *code, kind: kind.clone() },
            ScValDecoded::Raw(s) => ScValDecoded::Raw(s.clone()),
        }
    }
}

impl Clone for ScValDecoded {
    fn clone(&self) -> (r: Self)
        ensures
            r@ == self@,
    {
        self.deep_copy()
    }
}

impl View for ScValDecoded {
    type V = ScValView;

    open spec fn view(&self) -> ScValView {
        self.view_value()
    }
}


// ─── XDR decoding ────────────────────────────────────────────────────────────

/// Big-endian value of the first four bytes of `b`.
pub open spec fn be_u32(b: Seq<u8>) -> int {
    b[0] as int * 16777216 + b[1] as int * 65536 + b[2] as int * 256 + b[3] as int
}

/// Big-endian value of the first eight bytes of `b`.
pub open spec fn be_u64(b: Seq<u8>) -> int {
    be_u32(b) * 4294967296 + be_u32(b.subrange(4, 8))
}

/// Big-endian value of the first sixteen bytes of `b`.
pub open spec fn be_u128(b: Seq<u8>) -> int {
    be_u64(b) * 18446744073709551616 + be_u64(b.subrange(8, 16))
}

/// The body of an XDR variable-length opaque: a big-endian length, then that
/// many bytes padded to a multiple of four; `None` when the input is too short.
pub open spec fn xdr_opaque(b: Seq<u8>) -> Option<Seq<u8>> {
    if b.len() < 4 {
        None
    } else {
        let len = be_u32(b);
        if b.len() < 4 + (len + 3) / 4 * 4 {
            None
        } else {
            Some(b.subrange(4, 4 + len))
        }
    }
}

/// A placeholder symbol such as `item[3]`: `prefix`, the index in decimal, `]`.
pub open spec fn placeholder(prefix: Seq<char>, i: int) -> ScValView {
    ScValView::Symbol(prefix + dec_nat(i as nat) + "]"@)
}

/// The placeholder items reported for a non-empty vector of `n` elements.
pub open spec fn item_placeholders(n: int) -> Seq<ScValView> {
    Seq::new(n as nat, |i: int| placeholder("item["@, i))
}

/// The placeholder entries reported for a non-empty map of `n` entries.
pub open spec fn entry_placeholders(n: int) -> Seq<(ScValView, ScValView)> {
    Seq::new(n as nat, |i: int| (placeholder("key["@, i), placeholder("val["@, i)))
}

/// The text of an `ScAddress` of type `t` whose remaining bytes are `a`.
pub open spec fn address_text(t: int, a: Seq<u8>) -> Seq<char> {
    if t == 0 && a.len() >= 36 {
        "G["@ + hex_bytes(a.subrange(4, 36)) + "]"@
    } else if t == 1 && a.len() >= 32 {
        "C["@ + hex_bytes(a.subrange(0, 32)) + "]"@
    } else {
        "Address(type="@ + dec_nat(t as nat) + ")"@
    }
}

/// The smaller of two integers.
pub open spec fn min_int(a: int, b: int) -> int {
    if a <= b { a } else { b }
}

/// What an XDR-encoded `ScVal` decodes to, or `None` where the bytes are
/// too short for the value their discriminant announces.
pub open spec fn xdr_scval(bytes: Seq<u8>) -> Option<ScValView> {
    if bytes.len() < 4 {
        None
    } else {
        let d = be_u32(bytes);
        let rest = bytes.subrange(4, bytes.len() as int);
        if d == 0 {
            Some(ScValView::Bool(false))
        } else if d == 1 {
            Some(ScValView::Bool(true))
        } else if d == 2 {
            Some(ScValView::Void)
        } else if d == 4 || d == 5 {
            if rest.len() < 4 {
                None
            } else if d == 4 {
                Some(ScValView::U32(be_u32(rest) as u32))
            } else {
                Some(ScValView::I32((be_u32(rest) as u32) as i32))
            }
        } else if d == 6 || d == 7 {
            if rest.len() < 8 {
                None
            } else if d == 6 {
                Some(ScValView::U64(be_u64(rest) as u64))
            } else {
                Some(ScValView::I64((be_u64(rest) as u64) as i64))
            }
        } else if d == 10 || d == 11 {
            if rest.len() < 16 {
                None
            } else if d == 10 {
                Some(ScValView::U128(dec_nat(be_u128(rest) as nat)))
            } else {
                Some(ScValView::I128(dec_int(((be_u128(rest) as u128) as i128) as int)))
            }
        } else if d == 14 || d == 15 || d == 16 {
            match xdr_opaque(rest) {
                None => None,
                Some(raw) => if d == 14 {
                    Some(ScValView::Bytes(raw))
                } else if d == 15 {
                    Some(ScValView::String(utf8_text(raw)))
                } else {
                    Some(ScValView::Symbol(utf8_text(raw)))
                },
            }
        } else if d == 17 || d == 18 {
            if rest.len() < 4 {
                None
            } else if be_u32(rest) == 0 {
                if d == 17 {
                    Some(ScValView::Vec(Seq::empty()))
                } else {
                    Some(ScValView::ScMap(Seq::empty()))
                }
            } else if rest.len() < 8 {
                None
            } else if d == 17 {
                Some(ScValView::Vec(item_placeholders(min_int(be_u32(rest.subrange(4, 8)), 256))))
            } else {
                Some(ScValView::ScMap(entry_placeholders(min_int(be_u32(rest.subrange(4, 8)), 64))))
            }
        } else if d == 19 {
            if rest.len() < 4 {
                None
            } else {
                Some(ScValView::Address(address_text(be_u32(rest), rest.subrange(4, rest.len() as int))))
            }
        } else {
            Some(ScValView::Raw(base64_encoded(bytes)))
        }
    }
}

/// The text of a byte sequence: its UTF-8 decoding where it is valid UTF-8,
/// else what `String::from_utf8_lossy` makes of it.
pub open spec fn utf8_text(bytes: Seq<u8>) -> Seq<char> {
    if valid_utf8(bytes) {
        decode_utf8(bytes)
    } else {
        utf8_lossy(bytes)
    }
}

/// The name for what `String::from_utf8_lossy` makes of a byte sequence.
pub uninterp spec fn utf8_lossy(bytes: Seq<u8>) -> Seq<char>;

/// The name for what base64's `STANDARD` engine encodes a byte sequence to.
pub uninterp spec fn base64_encoded(bytes: Seq<u8>) -> Seq<char>;

/// The name for what base64's `STANDARD` engine decodes a string to
/// (`None` where it reports an error).
pub uninterp spec fn base64_decoded(text: Seq<char>) -> Option<Seq<u8>>;

/// Calls `String::from_utf8_lossy`: invalid sequences become U+FFFD.
/// Claimed: the result is the named function of the bytes, and on valid
/// UTF-8 it is exactly the decoded text.
#[verifier::external_body]
fn lossy_text(bytes: &[u8]) -> (s: String)
    ensures
        s@ == utf8_lossy(bytes@),
        valid_utf8(bytes@) ==> s@ == decode_utf8(bytes@),
{
    String::from_utf8_lossy(bytes).into_owned()
}

/// Calls base64's `Engine::encode` on the `STANDARD` engine (padded,
/// standard alphabet). Claimed: the result is the named function of the
/// bytes. It panics only when the padded output length overflows `usize`,
/// which `requires` rules out.
#[verifier::external_body]
fn standard_encode(bytes: &[u8]) -> (s: String)
    requires
        bytes@.len() / 3 * 4 + (if bytes@.len() % 3 > 0 { 4int } else { 0int }) <= usize::MAX,
    ensures
        s@ == base64_encoded(bytes@),
{
    STANDARD.encode(bytes)
}

/// Calls base64's `Engine::decode` on the `STANDARD` engine. Claimed: the
/// result is the named function of the text; the error value is dropped.
#[verifier::external_body]
fn standard_decode(text: &str) -> (r: Option<Vec<u8>>)
    ensures
        r matches Some(b) ==> base64_decoded(text@) == Some(b@),
        r is None ==> base64_decoded(text@) is None,
{
    STANDARD.decode(text).ok()
}

/// Reads a big-endian `u32` from the first four bytes.
pub fn read_u32(bytes: &[u8]) -> (r: Option<u32>)
    ensures
        bytes@.len() < 4 ==> r is None,
        bytes@.len() >= 4 ==> r == Some(be_u32(bytes@) as u32) && be_u32(bytes@) <= u32::MAX,
{
    if bytes.len() < 4 {
        return None;
    }
    let v: u32 = (bytes[0] as u32) * 16777216 + (bytes[1] as u32) * 65536 + (bytes[2] as u32) * 256
        + (bytes[3] as u32);
    Some(v)
}

/// Reads a big-endian `u64` from the first eight bytes.
pub fn read_u64(bytes: &[u8]) -> (r: Option<u64>)
    ensures
        bytes@.len() < 8 ==> r is None,
        bytes@.len() >= 8 ==> r == Some(be_u64(bytes@) as u64) && be_u64(bytes@) <= u64::MAX,
{
    if bytes.len() < 8 {
        return None;
    }
    let hi = read_u32(bytes).unwrap();
    let lo_bytes = &bytes[4..8];
    let lo = read_u32(lo_bytes).unwrap();
    assert(lo_bytes@ == bytes@.subrange(4, 8));
    let v: u64 = (hi as u64) * 4294967296 + (lo as u64);
    Some(v)
}

/// Reads a big-endian `u128` from the first sixteen bytes.
pub fn read_u128(bytes: &[u8]) -> (r: Option<u128>)
    ensures
        bytes@.len() < 16 ==> r is None,
        bytes@.len() >= 16 ==> r == Some(be_u128(bytes@) as u128) && be_u128(bytes@) <= u128::MAX,
{
    if bytes.len() < 16 {
        return None;
    }
    let hi = read_u64(&bytes[0..8]).unwrap();
    let lo_bytes = &bytes[8..16];
    let lo = read_u64(lo_bytes).unwrap();
    proof {
        assert(bytes@.subrange(0, 8).subrange(4, 8) =~= bytes@.subrange(4, 8));
        assert(lo_bytes@.subrange(4, 8) =~= bytes@.subrange(8, 16).subrange(4, 8));
    }
    let v: u128 = (hi as u128) * 18446744073709551616 + (lo as u128);
    Some(v)
}

/// Decodes an XDR variable-length opaque (length prefix, then the bytes padded
/// to a multiple of four).
pub fn decode_opaque(bytes: &[u8]) -> (r: Option<Vec<u8>>)
    ensures
        r matches Some(v) ==> xdr_opaque(bytes@) == Some(v@),
        r is None ==> xdr_opaque(bytes@) is None,
{
    let len = match read_u32(bytes) {
        Some(len) => len,
        None => return None,
    };
    let padded: u64 = ((len as u64) + 3) / 4 * 4;
    if (bytes.len() as u64) < 4 + padded {
        return None;
    }
    let body = &bytes[4..4 + (len as usize)];
    Some(vstd::slice::slice_to_vec(body))
}

/// A placeholder symbol: `prefix`, `i` in decimal, then `]`.
fn placeholder_symbol(prefix: &str, i: u32) -> (r: ScValDecoded)
    ensures
        r@ == placeholder(prefix@, i as int),
{
    let mut s = String::new();
    s.append(prefix);
    push_decimal(&mut s, i as u128);
    s.append("]");
    assert(s@ =~= prefix@ + dec_nat(i as nat) + "]"@);
    ScValDecoded::Symbol(s)
}

/// `count` (capped at 256) placeholder items `item[0]`, `item[1]`, ... read
/// from the element count at the start of `bytes`.
pub fn decode_count_placeholder(bytes: &[u8]) -> (r: Option<Vec<ScValDecoded>>)
    ensures
        bytes@.len() < 4 ==> r is None,
        bytes@.len() >= 4 ==> (r matches Some(v)
            && view_items(v@) == item_placeholders(min_int(be_u32(bytes@), 256))),
{
    let count = match read_u32(bytes) {
        Some(c) => if c < 256 { c } else { 256 },
        None => return None,
    };
    let mut out: Vec<ScValDecoded> = Vec::new();
    let mut i: u32 = 0;
    while i < count
        invariant
            i <= count,
            view_items(out@) == item_placeholders(i as int),
        decreases count - i,
    {
        let p = placeholder_symbol("item[", i);
        proof {
            assert(out@.push(p).drop_last() =~= out@);
            assert(item_placeholders(i + 1) =~= item_placeholders(i as int).push(placeholder("item["@, i as int)));
        }
        out.push(p);
        i = i + 1;
    }
    Some(out)
}

/// `n` placeholder entries `(key[i], val[i])`.
fn entry_placeholder_list(n: u32) -> (r: Vec<(ScValDecoded, ScValDecoded)>)
    ensures
        view_pairs(r@) == entry_placeholders(n as int),
{
    let mut out: Vec<(ScValDecoded, ScValDecoded)> = Vec::new();
    let mut i: u32 = 0;
    while i < n
        invariant
            i <= n,
            view_pairs(out@) == entry_placeholders(i as int),
        decreases n - i,
    {
        let k = placeholder_symbol("key[", i);
        let v = placeholder_symbol("val[", i);
        proof {
            assert(out@.push((k, v)).drop_last() =~= out@);
            assert(entry_placeholders(i + 1) =~= entry_placeholders(i as int).push(
                (placeholder("key["@, i as int), placeholder("val["@, i as int)),
            ));
        }
        out.push((k, v));
        i = i + 1;
    }
    out
}

/// The text of an address: `G[..]` for an account (32 key bytes after the key
/// type), `C[..]` for a contract (32 hash bytes), else `Address(type=N)`.
fn address_string(addr_type: u32, rest: &[u8]) -> (r: String)
    ensures
        r@ == address_text(addr_type as int, rest@),
{
    let mut s = String::new();
    if addr_type == 0 && rest.len() >= 36 {
        s.append("G[");
        push_hex(&mut s, &rest[4..36]);
        s.append("]");
        assert(s@ =~= address_text(addr_type as int, rest@));
    } else if addr_type == 1 && rest.len() >= 32 {
        s.append("C[");
        push_hex(&mut s, &rest[0..32]);
        s.append("]");
        assert(s@ =~= address_text(addr_type as int, rest@));
    } else {
        s.append("Address(type=");
        push_decimal(&mut s, addr_type as u128);
        s.append(")");
        assert(s@ =~= address_text(addr_type as int, rest@));
    }
    s
}

impl ScValDecoded {
    /// Decodes raw XDR bytes; `None` where they are too short for what their
    /// discriminant announces. Unknown discriminants give `Raw` with the
    /// bytes re-encoded in base64.
    pub fn from_xdr_bytes(bytes: &[u8]) -> (r: Option<ScValDecoded>)
        requires
            bytes@.len() <= isize::MAX,
        ensures
            r matches Some(v) ==> xdr_scval(bytes@) == Some(v@),
            r is None ==> xdr_scval(bytes@) is None,
    {
        let discriminant = match read_u32(bytes) {
            Some(d) => d,
            None => return None,
        };
        let rest = &bytes[4..bytes.len()];
        assert(rest@ == bytes@.subrange(4, bytes@.len() as int));
        if discriminant == 0 {
            Some(ScValDecoded::Bool(false))
        } else if discriminant == 1 {
            Some(ScValDecoded::Bool(true))
        } else if discriminant == 2 {
            Some(ScValDecoded::Void)
        } else if discriminant == 4 {
            match read_u32(rest) {
                Some(v) => Some(ScValDecoded::U32(v)),
                None => None,
            }
        } else if discriminant == 5 {
            match read_u32(rest) {
                Some(v) => Some(ScValDecoded::I32(#[verifier::truncate] (v as i32))),
                None => None,
            }
        } else if discriminant == 6 {
            match read_u64(rest) {
                Some(v) => Some(ScValDecoded::U64(v)),
                None => None,
            }
        } else if discriminant == 7 {
            match read_u64(rest) {
                Some(v) => Some(ScValDecoded::I64(#[verifier::truncate] (v as i64))),
                None => None,
            }
        } else if discriminant == 10 {
            match read_u128(rest) {
                Some(v) => Some(ScValDecoded::U128(decimal(v))),
                None => None,
            }
        } else if discriminant == 11 {
            match read_u128(rest) {
                Some(v) => Some(ScValDecoded::I128(signed_decimal(#[verifier::truncate] (v as i128)))),
                None => None,
            }
        } else if discriminant == 14 {
            match decode_opaque(rest) {
                Some(raw) => Some(ScValDecoded::Bytes(raw)),
                None => None,
            }
        } else if discriminant == 15 {
            match decode_opaque(rest) {
                Some(raw) => Some(ScValDecoded::String(lossy_text(raw.as_slice()))),
                None => None,
            }
        } else if discriminant == 16 {
            match decode_opaque(rest) {
                Some(raw) => Some(ScValDecoded::Symbol(lossy_text(raw.as_slice()))),
                None => None,
            }
        } else if discriminant == 17 {
            // SCV_VEC: optional<ScVec>
            let present = match read_u32(rest) {
                Some(p) => p,
                None => return None,
            };
            if present == 0 {
                let empty: Vec<ScValDecoded> = Vec::new();
                assert(view_items(empty@) =~= Seq::<ScValView>::empty());
                Some(ScValDecoded::Vec(empty))
            } else {
                let tail = &rest[4..rest.len()];
                assert(rest@.len() >= 8 ==> tail@.subrange(0, 4) =~= rest@.subrange(4, 8));
                match decode_count_placeholder(tail) {
                    Some(items) => Some(ScValDecoded::Vec(items)),
                    None => None,
                }
            }
        } else if discriminant == 18 {
            // SCV_MAP: optional<ScMap>
            let present = match read_u32(rest) {
                Some(p) => p,
                None => return None,
            };
            if present == 0 {
                let empty: Vec<(ScValDecoded, ScValDecoded)> = Vec::new();
                assert(view_pairs(empty@) =~= Seq::<(ScValView, ScValView)>::empty());
                Some(ScValDecoded::ScMap(empty))
            } else {
                let tail = &rest[4..rest.len()];
                assert(rest@.len() >= 8 ==> tail@.subrange(0, 4) =~= rest@.subrange(4, 8));
                let n = match read_u32(tail) {
                    Some(n) => if n < 64 { n } else { 64 },
                    None => return None,
                };
                Some(ScValDecoded::ScMap(entry_placeholder_list(n)))
            }
        } else if discriminant == 19 {
            // SCV_ADDRESS: ScAddress
            let addr_type = match read_u32(rest) {
                Some(t) => t,
                None => return None,
            };
            let addr_rest = &rest[4..rest.len()];
            Some(ScValDecoded::Address(address_string(addr_type, addr_rest)))
        } else {
            Some(ScValDecoded::Raw(standard_encode(bytes)))
        }
    }
}


/// What `from_base64` gives for `text`: the decoded value, or `Raw(text)`
/// where the text is not base64, the bytes are not a complete `ScVal`, or the
/// decoded bytes are longer than any slice can be.
pub open spec fn scval_from_base64(text: Seq<char>) -> ScValView {
    match base64_decoded(text) {
        Some(bytes) => if bytes.len() <= isize::MAX {
            match xdr_scval(bytes) {
                Some(v) => v,
                None => ScValView::Raw(text),
            }
        } else {
            ScValView::Raw(text)
        },
        None => ScValView::Raw(text),
    }
}

impl ScValDecoded {
    /// Decode a base64-encoded XDR ScVal string. On any decode failure,
    /// returns `Raw` holding the input, so callers always get a value.
    pub fn from_base64(b64: &str) -> (r: ScValDecoded)
        ensures
            r@ == scval_from_base64(b64@),
    {
        match standard_decode(b64) {
            Some(bytes) => {
                if bytes.len() <= isize::MAX as usize {
                    match ScValDecoded::from_xdr_bytes(bytes.as_slice()) {
                        Some(v) => v,
                        None => ScValDecoded::Raw(b64.to_owned()),
                    }
                } else {
                    ScValDecoded::Raw(b64.to_owned())
                }
            },
            None => ScValDecoded::Raw(b64.to_owned()),
        }
    }
}

/// How XDR bytes decode, read straight off the bytes: fewer than four bytes
/// decode to nothing; a discriminant (the first four bytes, big-endian) of 0,
/// 1 or 2 gives `false`, `true` and void; 4 gives the `u32` whose big-endian
/// bytes are the next four, 6 the `u64` of the next eight, each or nothing
/// when those bytes are missing; 14 gives the opaque body whose big-endian
/// length the next four bytes give (padded to a multiple of four), 16 a
/// symbol with the UTF-8 text of such a body.
pub proof fn lemma_xdr_scalars(b: Seq<u8>)
    ensures
        b.len() < 4 ==> xdr_scval(b) is None,
        (b.len() >= 4 && b[0] == 0 && b[1] == 0 && b[2] == 0) ==> {
            &&& b[3] == 0 ==> xdr_scval(b) == Some(ScValView::Bool(false))
            &&& b[3] == 1 ==> xdr_scval(b) == Some(ScValView::Bool(true))
            &&& b[3] == 2 ==> xdr_scval(b) == Some(ScValView::Void)
            &&& (b[3] == 4 && b.len() < 8) ==> xdr_scval(b) is None
            &&& (b[3] == 4 && b.len() >= 8) ==> (xdr_scval(b) matches Some(ScValView::U32(v)) && v
                == b[4] as int * 0x100_0000 + b[5] as int * 0x1_0000 + b[6] as int * 0x100 + b[7] as int)
            &&& (b[3] == 6 && b.len() < 12) ==> xdr_scval(b) is None
            &&& (b[3] == 6 && b.len() >= 12) ==> (xdr_scval(b) matches Some(ScValView::U64(v)) && v
                == b[4] as int * 0x100_0000_0000_0000 + b[5] as int * 0x1_0000_0000_0000 + b[6] as int
                * 0x100_0000_0000 + b[7] as int * 0x1_0000_0000 + b[8] as int * 0x100_0000 + b[9] as int
                * 0x1_0000 + b[10] as int * 0x100 + b[11] as int)
            &&& (b[3] == 14 || b[3] == 16) && b.len() < 8 ==> xdr_scval(b) is None
            &&& ((b[3] == 14 || b[3] == 16) && b.len() >= 8) ==> {
                let n = b[4] as int * 0x100_0000 + b[5] as int * 0x1_0000 + b[6] as int * 0x100 + b[7] as int;
                let padded = if n % 4 == 0 { n } else { n + 4 - n % 4 };
                &&& b.len() < 8 + padded ==> xdr_scval(b) is None
                &&& (b.len() >= 8 + padded && b[3] == 14) ==> xdr_scval(b) == Some(
                    ScValView::Bytes(b.subrange(8, 8 + n)),
                )
                &&& (b.len() >= 8 + padded && b[3] == 16 && valid_utf8(b.subrange(8, 8 + n)))
                    ==> xdr_scval(b) == Some(ScValView::Symbol(decode_utf8(b.subrange(8, 8 + n))))
            }
        },
{
    if b.len() >= 4 && b[0] == 0 && b[1] == 0 && b[2] == 0 {
        let rest = b.subrange(4, b.len() as int);
        assert(be_u32(b) == b[3] as int);
        if b.len() >= 8 {
            assert(rest[0] == b[4] && rest[1] == b[5] && rest[2] == b[6] && rest[3] == b[7]);
            let n = be_u32(rest);
            assert((n + 3) / 4 * 4 == if n % 4 == 0 { n } else { n + 4 - n % 4 });
            if b.len() >= 8 + n {
                assert(rest.subrange(4, 4 + n) =~= b.subrange(8, 8 + n));
            }
        }
        if b.len() >= 12 {
            assert(rest.subrange(4, 8) =~= b.subrange(8, 12));
        }
    }
}

/// The big-endian number that a byte sequence spells, read left to right.
pub open spec fn bytes_value(s: Seq<u8>) -> int
    decreases s.len(),
{
    if s.len() == 0 {
        0
    } else {
        bytes_value(s.drop_last()) * 256 + s.last() as int
    }
}

/// Reading one more byte shifts the number left by eight bits.
pub proof fn lemma_bytes_value_step(b: Seq<u8>, k: int)
    requires
        0 <= k < b.len(),
    ensures
        bytes_value(b.take(k + 1)) == bytes_value(b.take(k)) * 256 + b[k] as int,
{
    assert(b.take(k + 1).drop_last() =~= b.take(k));
}

/// The fixed-width readers read the big-endian number of their bytes.
pub proof fn lemma_be_readers(b: Seq<u8>)
    ensures
        b.len() >= 4 ==> be_u32(b) == bytes_value(b.take(4)),
        b.len() >= 8 ==> be_u64(b) == bytes_value(b.take(8)),
        b.len() >= 16 ==> be_u128(b) == bytes_value(b.take(16)),
    decreases b.len(),
{
    assert(b.take(0) =~= Seq::<u8>::empty());
    if b.len() >= 4 {
        lemma_bytes_value_step(b, 0);
        lemma_bytes_value_step(b, 1);
        lemma_bytes_value_step(b, 2);
        lemma_bytes_value_step(b, 3);
    }
    if b.len() >= 8 {
        lemma_bytes_value_step(b, 4);
        lemma_bytes_value_step(b, 5);
        lemma_bytes_value_step(b, 6);
        lemma_bytes_value_step(b, 7);
    }
    if b.len() >= 16 {
        lemma_bytes_value_step(b, 8);
        lemma_bytes_value_step(b, 9);
        lemma_bytes_value_step(b, 10);
        lemma_bytes_value_step(b, 11);
        lemma_bytes_value_step(b, 12);
        lemma_bytes_value_step(b, 13);
        lemma_bytes_value_step(b, 14);
        lemma_bytes_value_step(b, 15);
    }
    if b.len() >= 4 {
        assert(bytes_value(b.take(1)) == b[0] as int);
        assert(bytes_value(b.take(2)) == bytes_value(b.take(1)) * 256 + b[1] as int);
        assert(bytes_value(b.take(3)) == bytes_value(b.take(2)) * 256 + b[2] as int);
        assert(bytes_value(b.take(4)) == bytes_value(b.take(3)) * 256 + b[3] as int);
    }
    if b.len() >= 8 {
        let h = b.subrange(4, 8);
        assert(h[0] == b[4] && h[1] == b[5] && h[2] == b[6] && h[3] == b[7]);
        assert(bytes_value(b.take(5)) == bytes_value(b.take(4)) * 256 + b[4] as int);
        assert(bytes_value(b.take(6)) == bytes_value(b.take(5)) * 256 + b[5] as int);
        assert(bytes_value(b.take(7)) == bytes_value(b.take(6)) * 256 + b[6] as int);
        assert(bytes_value(b.take(8)) == bytes_value(b.take(7)) * 256 + b[7] as int);
    }
    if b.len() >= 16 {
        let lo = b.subrange(8, 16);
        lemma_be_readers(lo);
        assert(lo.subrange(4, 8) =~= b.subrange(12, 16));
        assert(lo[0] == b[8] && lo[1] == b[9] && lo[2] == b[10] && lo[3] == b[11]);
        assert(b.subrange(12, 16)[0] == b[12] && b.subrange(12, 16)[1] == b[13]);
        assert(b.subrange(12, 16)[2] == b[14] && b.subrange(12, 16)[3] == b[15]);
        assert(bytes_value(b.take(9)) == bytes_value(b.take(8)) * 256 + b[8] as int);
        assert(bytes_value(b.take(10)) == bytes_value(b.take(9)) * 256 + b[9] as int);
        assert(bytes_value(b.take(11)) == bytes_value(b.take(10)) * 256 + b[10] as int);
        assert(bytes_value(b.take(12)) == bytes_value(b.take(11)) * 256 + b[11] as int);
        assert(bytes_value(b.take(13)) == bytes_value(b.take(12)) * 256 + b[12] as int);
        assert(bytes_value(b.take(14)) == bytes_value(b.take(13)) * 256 + b[13] as int);
        assert(bytes_value(b.take(15)) == bytes_value(b.take(14)) * 256 + b[14] as int);
        assert(bytes_value(b.take(16)) == bytes_value(b.take(15)) * 256 + b[15] as int);
    }
}

/// Signed and wide numbers read straight off the bytes: after a discriminant
/// of 5 (7) the `i32` (`i64`) is the two's-complement reading of the next four
/// (eight) bytes taken big-endian; after 10 the `u128` is the decimal text of
/// the next sixteen bytes taken big-endian, and after 11 the `i128` is the
/// decimal text of their two's-complement reading; each decodes to nothing
/// when those bytes are missing.
pub proof fn lemma_xdr_wide_and_signed(b: Seq<u8>)
    requires
        b.len() >= 4,
        b[0] == 0,
        b[1] == 0,
        b[2] == 0,
    ensures
        (b[3] == 5 && b.len() < 8) ==> xdr_scval(b) is None,
        (b[3] == 5 && b.len() >= 8) ==> {
            let u = bytes_value(b.subrange(4, 8));
            xdr_scval(b) matches Some(ScValView::I32(v)) && v == (if u < 0x8000_0000 {
                u
            } else {
                u - 0x1_0000_0000
            })
        },
        (b[3] == 7 && b.len() < 12) ==> xdr_scval(b) is None,
        (b[3] == 7 && b.len() >= 12) ==> {
            let u = bytes_value(b.subrange(4, 12));
            xdr_scval(b) matches Some(ScValView::I64(v)) && v == (if u < 0x8000_0000_0000_0000 {
                u
            } else {
                u - 0x1_0000_0000_0000_0000
            })
        },
        (b[3] == 10 && b.len() < 20) ==> xdr_scval(b) is None,
        (b[3] == 10 && b.len() >= 20) ==> xdr_scval(b) == Some(
            ScValView::U128(dec_nat(bytes_value(b.subrange(4, 20)) as nat)),
        ),
        (b[3] == 11 && b.len() < 20) ==> xdr_scval(b) is None,
        (b[3] == 11 && b.len() >= 20) ==> {
            let u = bytes_value(b.subrange(4, 20));
            xdr_scval(b) == Some(
                ScValView::I128(
                    dec_int(
                        if u < 0x8000_0000_0000_0000_0000_0000_0000_0000 {
                            u
                        } else {
                            u - 0x1_0000_0000_0000_0000_0000_0000_0000_0000
                        },
                    ),
                ),
            )
        },
{
    let rest = b.subrange(4, b.len() as int);
    assert(be_u32(b) == b[3] as int);
    lemma_be_readers(rest);
    if b.len() >= 8 {
        assert(rest.take(4) =~= b.subrange(4, 8));
        let x: u32 = be_u32(rest) as u32;
        assert(x == be_u32(rest));
        assert(x < 0x8000_0000 ==> (x as i32) as int == x as int) by (bit_vector);
        assert(x >= 0x8000_0000 ==> (x as i32) as int == x as int - 0x1_0000_0000) by (bit_vector);
    }
    if b.len() >= 12 {
        assert(rest.take(8) =~= b.subrange(4, 12));
        assert(0 <= be_u32(rest.subrange(4, 8)) < 0x1_0000_0000);
        let y: u64 = be_u64(rest) as u64;
        assert(y == be_u64(rest));
        assert(y < 0x8000_0000_0000_0000 ==> (y as i64) as int == y as int) by (bit_vector);
        assert(y >= 0x8000_0000_0000_0000 ==> (y as i64) as int == y as int
            - 0x1_0000_0000_0000_0000) by (bit_vector);
    }
    if b.len() >= 20 {
        assert(rest.take(16) =~= b.subrange(4, 20));
        assert(0 <= be_u64(rest.subrange(8, 16)) < 0x1_0000_0000_0000_0000);
        assert(0 <= be_u64(rest) < 0x1_0000_0000_0000_0000);
        let z: u128 = be_u128(rest) as u128;
        assert(z == be_u128(rest));
        assert(z < 0x8000_0000_0000_0000_0000_0000_0000_0000 ==> (z as i128) as int == z as int)
            by (bit_vector);
        assert(z >= 0x8000_0000_0000_0000_0000_0000_0000_0000 ==> (z as i128) as int == z as int
            - 0x1_0000_0000_0000_0000_0000_0000_0000_0000) by (bit_vector);
    }
}

/// Compound values read straight off the bytes. After a discriminant of 17
/// (18) a zero presence word gives the empty vector (map); otherwise the next
/// word is a count, and the vector holds the placeholders `item[i]` for the
/// first `min(count, 256)` indices (the map the pairs `key[i]`, `val[i]` for
/// the first `min(count, 64)`). After 19 an address type of 1 with 32 more
/// bytes gives `C[..]` with their hex, 0 with 36 more bytes `G[..]` with the
/// hex of the last 32, any other `Address(type=t)`. After 15 the opaque body,
/// where it is valid UTF-8, gives the string it spells. Missing words decode
/// to nothing.
pub proof fn lemma_xdr_compound(b: Seq<u8>)
    requires
        b.len() >= 4,
        b[0] == 0,
        b[1] == 0,
        b[2] == 0,
    ensures
        (b[3] == 17 || b[3] == 18 || b[3] == 19) && b.len() < 8 ==> xdr_scval(b) is None,
        (b[3] == 17 && b.len() >= 8 && bytes_value(b.subrange(4, 8)) == 0) ==> xdr_scval(b) == Some(
            ScValView::Vec(Seq::empty()),
        ),
        (b[3] == 18 && b.len() >= 8 && bytes_value(b.subrange(4, 8)) == 0) ==> xdr_scval(b) == Some(
            ScValView::ScMap(Seq::empty()),
        ),
        ((b[3] == 17 || b[3] == 18) && 8 <= b.len() < 12 && bytes_value(b.subrange(4, 8)) != 0)
            ==> xdr_scval(b) is None,
        (b[3] == 17 && b.len() >= 12 && bytes_value(b.subrange(4, 8)) != 0) ==> {
            let n = bytes_value(b.subrange(8, 12));
            &&& xdr_scval(b) matches Some(ScValView::Vec(items))
            &&& items.len() == (if n <= 256 { n } else { 256 })
            &&& forall|i: int|
                0 <= i < items.len() ==> #[trigger] items[i] == ScValView::Symbol(
                    "item["@ + dec_nat(i as nat) + "]"@,
                )
        },
        (b[3] == 18 && b.len() >= 12 && bytes_value(b.subrange(4, 8)) != 0) ==> {
            let n = bytes_value(b.subrange(8, 12));
            &&& xdr_scval(b) matches Some(ScValView::ScMap(pairs))
            &&& pairs.len() == (if n <= 64 { n } else { 64 })
            &&& forall|i: int|
                0 <= i < pairs.len() ==> #[trigger] pairs[i] == (
                    ScValView::Symbol("key["@ + dec_nat(i as nat) + "]"@),
                    ScValView::Symbol("val["@ + dec_nat(i as nat) + "]"@),
                )
        },
        (b[3] == 19 && b.len() >= 8) ==> {
            let t = bytes_value(b.subrange(4, 8));
            &&& (t == 1 && b.len() >= 40) ==> xdr_scval(b) == Some(
                ScValView::Address("C["@ + hex_bytes(b.subrange(8, 40)) + "]"@),
            )
            &&& (t == 0 && b.len() >= 44) ==> xdr_scval(b) == Some(
                ScValView::Address("G["@ + hex_bytes(b.subrange(12, 44)) + "]"@),
            )
            &&& !(t == 1 && b.len() >= 40) && !(t == 0 && b.len() >= 44) ==> xdr_scval(b) == Some(
                ScValView::Address("Address(type="@ + dec_nat(t as nat) + ")"@),
            )
        },
        (b[3] == 15 && b.len() >= 8) ==> {
            let n = bytes_value(b.subrange(4, 8));
            let padded = if n % 4 == 0 { n } else { n + 4 - n % 4 };
            &&& b.len() < 8 + padded ==> xdr_scval(b) is None
            &&& (b.len() >= 8 + padded && valid_utf8(b.subrange(8, 8 + n))) ==> xdr_scval(b)
                == Some(ScValView::String(decode_utf8(b.subrange(8, 8 + n))))
        },
{
    let rest = b.subrange(4, b.len() as int);
    assert(be_u32(b) == b[3] as int);
    lemma_be_readers(rest);
    if b.len() >= 8 {
        assert(rest.take(4) =~= b.subrange(4, 8));
        let n = be_u32(rest);
        assert((n + 3) / 4 * 4 == if n % 4 == 0 { n } else { n + 4 - n % 4 });
        if b.len() >= 8 + n {
            assert(rest.subrange(4, 4 + n) =~= b.subrange(8, 8 + n));
        }
        let a = rest.subrange(4, rest.len() as int);
        assert(a =~= b.subrange(8, b.len() as int));
        if b.len() >= 40 {
            assert(a.subrange(0, 32) =~= b.subrange(8, 40));
        }
        if b.len() >= 44 {
            assert(a.subrange(4, 36) =~= b.subrange(12, 44));
        }
    }
    if b.len() >= 12 {
        let c = b.subrange(8, 12);
        lemma_be_readers(c);
        assert(c.take(4) =~= c);
        assert(rest.subrange(4, 8) =~= c);
    }
}

/// Four bytes whose big-endian value is no discriminant of a supported
/// `ScVal` (0, 1, 2, 4 to 7, 10, 11, 14 to 19) decode to `Raw` holding the
/// base64 of all the bytes.
pub proof fn lemma_xdr_unknown(b: Seq<u8>)
    requires
        b.len() >= 4,
        ({
            let d = bytes_value(b.take(4));
            !(d <= 2 || (4 <= d <= 7) || d == 10 || d == 11 || (14 <= d <= 19))
        }),
    ensures
        xdr_scval(b) == Some(ScValView::Raw(base64_encoded(b))),
{
    lemma_be_readers(b);
}

/// Whatever text is not base64 of a complete `ScVal` decodes to `Raw`
/// holding exactly that text, so the input is never lost.
pub proof fn lemma_undecodable_text_is_kept(text: Seq<char>)
    requires
        match base64_decoded(text) {
            None => true,
            Some(bytes) => xdr_scval(bytes) is None,
        },
    ensures
        scval_from_base64(text) == ScValView::Raw(text),
{
}

// ─── Display ─────────────────────────────────────────────────────────────────

/// The compact text of a value, as `display` renders it.
pub open spec fn display_view(v: ScValView) -> Seq<char>
    decreases v,
{
    match v {
        ScValView::Bool(b) => if b { "true"@ } else { "false"@ },
        ScValView::Void => "void"@,
        ScValView::I32(x) => dec_int(x as int),
        ScValView::U32(x) => dec_nat(x as nat),
        ScValView::I64(x) => dec_int(x as int),
        ScValView::U64(x) => dec_nat(x as nat),
        ScValView::I128(s) => "i128:"@ + s,
        ScValView::U128(s) => "u128:"@ + s,
        ScValView::Symbol(s) => ":"@ + s,
        ScValView::String(s) => "\""@ + s + "\""@,
        ScValView::Bytes(b) => "0x"@ + hex_bytes(b),
        ScValView::Address(a) => a,
        ScValView::Vec(items) => "["@ + display_list(items) + "]"@,
        ScValView::ScMap(entries) => "{"@ + display_entries(entries) + "}"@,
        ScValView::Error { code, kind } => "error("@ + kind + ":"@ + dec_nat(code as nat) + ")"@,
        ScValView::Raw(r) => "raw:"@ + r,
    }
}

/// The items' texts joined by `, `.
pub open spec fn display_list(items: Seq<ScValView>) -> Seq<char>
    decreases items,
{
    if items.len() == 0 {
        Seq::empty()
    } else if items.len() == 1 {
        display_view(items[0])
    } else {
        display_list(items.drop_last()) + ", "@ + display_view(items.last())
    }
}

/// The entries' texts `key=value` joined by `, `.
pub open spec fn display_entries(entries: Seq<(ScValView, ScValView)>) -> Seq<char>
    decreases entries,
{
    if entries.len() == 0 {
        Seq::empty()
    } else if entries.len() == 1 {
        display_view(entries[0].0) + "="@ + display_view(entries[0].1)
    } else {
        display_entries(entries.drop_last()) + ", "@ + display_view(entries.last().0) + "="@
            + display_view(entries.last().1)
    }
}

/// Numbers display in decimal: an unsigned one as digits that read back as
/// the number; a signed one the same, behind a `-` exactly when it is
/// negative.
pub proof fn lemma_display_numbers(a: u32, b: u64, c: i32, d: i64)
    ensures
        parse_unsigned(display_view(ScValView::U32(a)), 0xffff_ffff) == Ok::<int, IntParseFailure>(
            a as int,
        ),
        parse_unsigned(display_view(ScValView::U64(b)), 0xffff_ffff_ffff_ffff) == Ok::<
            int,
            IntParseFailure,
        >(b as int),
        c >= 0 ==> parse_unsigned(display_view(ScValView::I32(c)), 0x8000_0000) == Ok::<
            int,
            IntParseFailure,
        >(c as int),
        c < 0 ==> {
            let t = display_view(ScValView::I32(c));
            &&& t.len() > 1 && t[0] == '-'
            &&& parse_unsigned(t.drop_first(), 0x8000_0000) == Ok::<int, IntParseFailure>(-c)
        },
        d >= 0 ==> parse_unsigned(display_view(ScValView::I64(d)), 0x8000_0000_0000_0000) == Ok::<
            int,
            IntParseFailure,
        >(d as int),
        d < 0 ==> {
            let t = display_view(ScValView::I64(d));
            &&& t.len() > 1 && t[0] == '-'
            &&& parse_unsigned(t.drop_first(), 0x8000_0000_0000_0000) == Ok::<int, IntParseFailure>(
                -d,
            )
        },
{
    lemma_decimal_round_trip(a as nat, 0xffff_ffff);
    lemma_decimal_round_trip(b as nat, 0xffff_ffff_ffff_ffff);
    lemma_signed_decimal(c as int);
    lemma_signed_decimal(d as int);
    if c >= 0 {
        lemma_decimal_round_trip(c as nat, 0x8000_0000);
    } else {
        lemma_decimal_round_trip((-c) as nat, 0x8000_0000);
        assert((seq!['-'] + dec_nat((-c) as nat)).drop_first() =~= dec_nat((-c) as nat));
    }
    if d >= 0 {
        lemma_decimal_round_trip(d as nat, 0x8000_0000_0000_0000);
    } else {
        lemma_decimal_round_trip((-d) as nat, 0x8000_0000_0000_0000);
        assert((seq!['-'] + dec_nat((-d) as nat)).drop_first() =~= dec_nat((-d) as nat));
    }
}

/// `view_items` keeps the length and maps each element to its view.
pub proof fn lemma_view_items(items: Seq<ScValDecoded>)
    ensures
        view_items(items).len() == items.len(),
        forall|j: int| 0 <= j < items.len() ==> #[trigger] view_items(items)[j] == items[j]@,
    decreases items.len(),
{
    if items.len() > 0 {
        lemma_view_items(items.drop_last());
    }
}

/// `view_pairs` keeps the length and maps each entry to its views.
pub proof fn lemma_view_pairs(pairs: Seq<(ScValDecoded, ScValDecoded)>)
    ensures
        view_pairs(pairs).len() == pairs.len(),
        forall|j: int| 0 <= j < pairs.len() ==> #[trigger] view_pairs(pairs)[j] == (pairs[j].0@, pairs[j].1@),
    decreases pairs.len(),
{
    if pairs.len() > 0 {
        lemma_view_pairs(pairs.drop_last());
    }
}

impl ScValDecoded {
    /// Compact string representation, useful for logging / CLI display.
    pub fn display(&self) -> (r: String)
        ensures
            r@ == display_view(self@),
        decreases self,
    {
        match self {
            ScValDecoded::Bool(b) => if *b { "true".to_owned() } else { "false".to_owned() },
            ScValDecoded::Void => "void".to_owned(),
            ScValDecoded::I32(v) => signed_decimal(*v as i128),
            ScValDecoded::U32(v) => decimal(*v as u128),
            ScValDecoded::I64(v) => signed_decimal(*v as i128),
            ScValDecoded::U64(v) => decimal(*v as u128),
            ScValDecoded::I128(v) => {
                let mut s = "i128:".to_owned();
                s.append(v.as_str());
                s
            },
            ScValDecoded::U128(v) => {
                let mut s = "u128:".to_owned();
                s.append(v.as_str());
                s
            },
            ScValDecoded::Symbol(v) => {
                let mut s = ":".to_owned();
                s.append(v.as_str());
                s
            },
            ScValDecoded::String(v) => {
                let mut s = "\"".to_owned();
                s.append(v.as_str());
                s.append("\"");
                s
            },
            ScValDecoded::Bytes(b) => {
                let mut s = "0x".to_owned();
                push_hex(&mut s, b.as_slice());
                s
            },
            ScValDecoded::Address(a) => a.clone(),
            ScValDecoded::Vec(items) => {
                let mut s = "[".to_owned();
                let ghost start = s@;
                proof { lemma_view_items(items@); }
                let mut i: usize = 0;
                while i < items.len()
                    invariant
                        i <= items@.len(),
                        *self == ScValDecoded::Vec(*items),
                        s@ == start + display_list(view_items(items@).take(i as int)),
                        view_items(items@).len() == items@.len(),
                        forall|j: int| 0 <= j < items@.len() ==> #[trigger] view_items(items@)[j] == items@[j]@,
                    decreases items@.len() - i,
                {
                    assert(decreases_to!(*self => (*self)->Vec_0));
                    assert(decreases_to!(*items => items@));
                    assert(decreases_to!(items@ => items@[i as int]));
                    let part = items[i].display();
                    if i > 0 {
                        s.append(", ");
                    }
                    s.append(part.as_str());
                    proof {
                        let vs = view_items(items@);
                        assert(vs.take(i + 1).drop_last() =~= vs.take(i as int));
                        assert(vs.take(i + 1).last() == items@[i as int]@);
                        if i == 0 {
                            assert(s@ =~= start + display_list(vs.take(i + 1)));
                        } else {
                            assert(s@ =~= start + display_list(vs.take(i + 1)));
                        }
                    }
                    i = i + 1;
                }
                assert(view_items(items@).take(items@.len() as int) =~= view_items(items@));
                s.append("]");
                assert(s@ =~= display_view(self@));
                s
            },
            ScValDecoded::ScMap(entries) => {
                let mut s = "{".to_owned();
                let ghost start = s@;
                proof { lemma_view_pairs(entries@); }
                let mut i: usize = 0;
                while i < entries.len()
                    invariant
                        i <= entries@.len(),
                        *self == ScValDecoded::ScMap(*entries),
                        s@ == start + display_entries(view_pairs(entries@).take(i as int)),
                        view_pairs(entries@).len() == entries@.len(),
                        forall|j: int| 0 <= j < entries@.len() ==> #[trigger] view_pairs(entries@)[j] == (entries@[j].0@, entries@[j].1@),
                    decreases entries@.len() - i,
                {
                    assert(decreases_to!(*self => (*self)->ScMap_0));
                    assert(decreases_to!(*entries => entries@));
                    assert(decreases_to!(entries@ => entries@[i as int]));
                    assert(decreases_to!(entries@[i as int] => entries@[i as int].0));
                    assert(decreases_to!(entries@[i as int] => entries@[i as int].1));
                    let k = entries[i].0.display();
                    let v = entries[i].1.display();
                    if i > 0 {
                        s.append(", ");
                    }
                    s.append(k.as_str());
                    s.append("=");
                    s.append(v.as_str());
                    proof {
                        let vs = view_pairs(entries@);
                        assert(vs.take(i + 1).drop_last() =~= vs.take(i as int));
                        assert(vs.take(i + 1).last() == (entries@[i as int].0@, entries@[i as int].1@));
                        if i == 0 {
                            assert(s@ =~= start + display_entries(vs.take(i + 1)));
                        } else {
                            assert(s@ =~= start + display_entries(vs.take(i + 1)));
                        }
                    }
                    i = i + 1;
                }
                assert(view_pairs(entries@).take(entries@.len() as int) =~= view_pairs(entries@));
                s.append("}");
                assert(s@ =~= display_view(self@));
                s
            },
            ScValDecoded::Error { code, kind } => {
                let mut s = "error(".to_owned();
                s.append(kind.as_str());
                s.append(":");
                push_decimal(&mut s, *code as u128);
                s.append(")");
                assert(s@ =~= display_view(self@));
                s
            },
            ScValDecoded::Raw(r) => {
                let mut s = "raw:".to_owned();
                s.append(r.as_str());
                s
            },
        }
    }
}

} // verus!
