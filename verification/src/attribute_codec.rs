//! Byte encodings of attribute values as they are stored under a key of the
//! attribute store. Numbers and lengths are laid out in the target's native
//! byte order; every encoder and decoder is also available with the byte
//! order as an explicit argument (the `_in` variants), which is where the
//! round-trip laws are stated.
use crate::bytes::{
    i32_bytes, i32_from_bytes, lemma_i32_roundtrip, lemma_usize_roundtrip, lemma_usize_width,
    native_byte_order, push_i32, push_usize, read_i32, read_usize_at, uint_value, usize_bytes,
    usize_byte_width, usize_width, ByteOrder,
};
use crate::entity_data::{
    TriBool, TAG_BLANK, TAG_BOOL, TAG_DERIVED, TAG_EMPTY_AGG, TAG_EMPTY_AGG_AGG, TAG_INT,
    TAG_STRING, TAG_TRIBOOL, TAG_VEC_INT, TAG_VEC_STRING, TAG_VEC_VEC_INT, TAG_IFCPTR, TAG_AGG_INST, TAG_AGG_AGG_INST, TAG_ENUMREF, IfcBaseClass, AggregateOfInstance, AggregateOfAggregateOfInstance, kind_byte, ref_id, inst_ref, is_generic_instance, EnumerationReference, SchemaContainer, Declaration, TypeEncoder, ValueKind, spec_stored_has,
};
use crate::seq_concat::{concat_map, lemma_concat_map_fixed, lemma_concat_map_push};
use crate::text::{copy_range, push_decimal, push_str, push_utf8, string_from_chars, string_from_utf8, decimal};
use std::sync::Arc;
use vstd::prelude::*;
use vstd::utf8::{decode_utf8, encode_utf8, valid_utf8};

verus! {

broadcast use {vstd::utf8::encode_utf8_valid_utf8, vstd::utf8::encode_utf8_decode_utf8};

/// `r` is what `f` gives in one of the two byte orders.
pub open spec fn in_some_order<A>(f: spec_fn(ByteOrder) -> A, r: A) -> bool {
    r == f(ByteOrder::Little) || r == f(ByteOrder::Big)
}

// ----------------------------------------------------------------------------
// Values without payload
// ----------------------------------------------------------------------------
pub fn serialize_blank() -> (r: Vec<u8>)
    ensures
        r@ == seq![TAG_BLANK],
{
    let mut r = Vec::new();
    r.push(TAG_BLANK);
    r
}

pub fn serialize_derived() -> (r: Vec<u8>)
    ensures
        r@ == seq![TAG_DERIVED],
{
    let mut r = Vec::new();
    r.push(TAG_DERIVED);
    r
}

pub fn serialize_empty_agg() -> (r: Vec<u8>)
    ensures
        r@ == seq![TAG_EMPTY_AGG],
{
    let mut r = Vec::new();
    r.push(TAG_EMPTY_AGG);
    r
}

pub fn serialize_empty_agg_agg() -> (r: Vec<u8>)
    ensures
        r@ == seq![TAG_EMPTY_AGG_AGG],
{
    let mut r = Vec::new();
    r.push(TAG_EMPTY_AGG_AGG);
    r
}

// ----------------------------------------------------------------------------
// Logical values
// ----------------------------------------------------------------------------
/// Payload byte of a three-valued logical.
pub open spec fn tribool_code(t: TriBool) -> u8 {
    match t {
        TriBool::False => 0,
        TriBool::True => 1,
        TriBool::Indeterminate => 2,
    }
}

pub open spec fn spec_deserialize_tribool(buf: Seq<u8>) -> Option<TriBool> {
    if buf.len() == 0 || buf[0] != TAG_TRIBOOL {
        None
    } else {
        let b: u8 = if buf.len() > 1 {
            buf[1]
        } else {
            255
        };
        if b == 0 {
            Some(TriBool::False)
        } else if b == 1 {
            Some(TriBool::True)
        } else if b == 2 {
            Some(TriBool::Indeterminate)
        } else {
            None
        }
    }
}

/// The tag of a logical, then its payload byte.
pub open spec fn spec_serialize_tribool(t: TriBool) -> Seq<u8> {
    seq![TAG_TRIBOOL, tribool_code(t)]
}

pub fn serialize_tribool(t: TriBool) -> (r: Vec<u8>)
    ensures
        r@ == spec_serialize_tribool(t),
{
    let v: u8 = match t {
        TriBool::False => 0,
        TriBool::True => 1,
        TriBool::Indeterminate => 2,
    };
    let mut r = Vec::new();
    r.push(TAG_TRIBOOL);
    r.push(v);
    r
}

pub fn deserialize_tribool(buf: &[u8]) -> (r: Option<TriBool>)
    ensures
        r == spec_deserialize_tribool(buf@),
{
    if buf.len() == 0 || buf[0] != TAG_TRIBOOL {
        return None;
    }
    let b: u8 = if buf.len() > 1 {
        buf[1]
    } else {
        255
    };
    if b == 0 {
        Some(TriBool::False)
    } else if b == 1 {
        Some(TriBool::True)
    } else if b == 2 {
        Some(TriBool::Indeterminate)
    } else {
        None
    }
}

/// A three-valued logical survives encoding and decoding.
pub proof fn law_tribool_roundtrip(t: TriBool)
    ensures
        spec_deserialize_tribool(spec_serialize_tribool(t)) == Some(t),
{
}

pub open spec fn spec_ser_bool(v: bool) -> Seq<u8> {
    seq![TAG_BOOL, if v { 1u8 } else { 0u8 }]
}

pub open spec fn spec_de_bool(buf: Seq<u8>) -> Option<bool> {
    if buf.len() < 2 || buf[0] != TAG_BOOL {
        None
    } else {
        Some(buf[1] != 0)
    }
}

pub fn ser_bool(v: bool) -> (r: Vec<u8>)
    ensures
        r@ == spec_ser_bool(v),
{
    let mut r = Vec::new();
    r.push(TAG_BOOL);
    r.push(if v { 1u8 } else { 0u8 });
    r
}

pub fn de_bool(buf: &[u8]) -> (r: Option<bool>)
    ensures
        r == spec_de_bool(buf@),
{
    if buf.len() == 0 || buf[0] != TAG_BOOL {
        return None;
    }
    if buf.len() < 2 {
        return None;
    }
    Some(buf[1] != 0)
}

/// A boolean survives encoding and decoding.
pub proof fn law_bool_roundtrip(v: bool)
    ensures
        spec_de_bool(spec_ser_bool(v)) == Some(v),
{
}

// ----------------------------------------------------------------------------
// Integers
// ----------------------------------------------------------------------------
pub open spec fn spec_ser_i32(v: i32, order: ByteOrder) -> Seq<u8> {
    seq![TAG_INT] + i32_bytes(v, order)
}

/// Decoding an integer reads four bytes after the tag.
pub open spec fn de_i32_fits(buf: Seq<u8>) -> bool {
    buf.len() == 0 || buf[0] != TAG_INT || buf.len() >= 5
}

pub open spec fn spec_de_i32(buf: Seq<u8>, order: ByteOrder) -> Option<i32> {
    if buf.len() == 0 || buf[0] != TAG_INT {
        None
    } else {
        Some(i32_from_bytes(buf.subrange(1, 5), order))
    }
}

pub fn ser_i32_in(v: i32, order: ByteOrder) -> (r: Vec<u8>)
    ensures
        r@ == spec_ser_i32(v, order),
{
    let mut r = Vec::new();
    r.push(TAG_INT);
    push_i32(&mut r, v, order);
    r
}

pub fn ser_i32(v: i32) -> (r: Vec<u8>)
    ensures
        in_some_order(|o: ByteOrder| spec_ser_i32(v, o), r@),
{
    ser_i32_in(v, native_byte_order())
}

pub fn de_i32_in(buf: &[u8], order: ByteOrder) -> (r: Option<i32>)
    requires
        de_i32_fits(buf@),
    ensures
        r == spec_de_i32(buf@, order),
{
    if buf.len() == 0 || buf[0] != TAG_INT {
        return None;
    }
    Some(read_i32(buf, 1, order))
}

pub fn de_i32(buf: &[u8]) -> (r: Option<i32>)
    requires
        de_i32_fits(buf@),
    ensures
        in_some_order(|o: ByteOrder| spec_de_i32(buf@, o), r),
{
    de_i32_in(buf, native_byte_order())
}

/// An integer survives encoding and decoding in the same byte order.
pub proof fn law_i32_roundtrip(v: i32, order: ByteOrder)
    ensures
        de_i32_fits(spec_ser_i32(v, order)),
        spec_de_i32(spec_ser_i32(v, order), order) == Some(v),
{
    lemma_i32_roundtrip(v, order);
    assert(spec_ser_i32(v, order).subrange(1, 5) =~= i32_bytes(v, order));
}

// ----------------------------------------------------------------------------
// Strings
// ----------------------------------------------------------------------------
pub open spec fn spec_ser_string(s: Seq<char>) -> Seq<u8> {
    seq![TAG_STRING] + encode_utf8(s)
}

pub open spec fn spec_de_string(buf: Seq<u8>) -> Option<Seq<char>> {
    if buf.len() == 0 || buf[0] != TAG_STRING || !valid_utf8(buf.drop_first()) {
        None
    } else {
        Some(decode_utf8(buf.drop_first()))
    }
}

pub fn ser_string(s: &str) -> (r: Vec<u8>)
    ensures
        r@ == spec_ser_string(s@),
{
    let mut r = Vec::new();
    r.push(TAG_STRING);
    push_utf8(&mut r, s);
    r
}

pub fn de_string(buf: &[u8]) -> (r: Option<String>)
    ensures
        r is Some <==> spec_de_string(buf@) is Some,
        r matches Some(s) ==> s@ == spec_de_string(buf@)->0,
{
    if buf.len() == 0 || buf[0] != TAG_STRING {
        return None;
    }
    let rest = copy_range(buf, 1, buf.len());
    assert(rest@ =~= buf@.drop_first());
    string_from_utf8(rest)
}

/// A string survives encoding and decoding.
pub proof fn law_string_roundtrip(s: Seq<char>)
    ensures
        spec_de_string(spec_ser_string(s)) == Some(s),
{
    assert(spec_ser_string(s).drop_first() =~= encode_utf8(s));
}

// ----------------------------------------------------------------------------
// Lists of integers
// ----------------------------------------------------------------------------
/// The four-byte encodings of the integers of `v`, laid end to end.
pub open spec fn i32s_bytes(v: Seq<i32>, order: ByteOrder) -> Seq<u8> {
    concat_map(v, |x: i32| i32_bytes(x, order))
}

pub open spec fn spec_ser_vec_i32(v: Seq<i32>, order: ByteOrder) -> Seq<u8> {
    seq![TAG_VEC_INT] + usize_bytes(v.len(), order) + i32s_bytes(v, order)
}

/// The element count stored after the tag.
pub open spec fn stored_count(buf: Seq<u8>, order: ByteOrder) -> nat {
    uint_value(buf.subrange(1, 1 + usize_width()), order)
}

/// The integers that the bytes from `off` onwards hold, `n` of them.
pub open spec fn i32s_at(buf: Seq<u8>, off: int, n: nat, order: ByteOrder) -> Seq<i32> {
    Seq::new(n, |i: int| i32_from_bytes(buf.subrange(off + 4 * i, off + 4 * i + 4), order))
}

/// Decoding a list of integers stays inside the buffer.
pub open spec fn de_vec_i32_fits(buf: Seq<u8>, order: ByteOrder) -> bool {
    buf.len() == 0 || buf[0] != TAG_VEC_INT || (1 + usize_width() <= buf.len() && 1
        + usize_width() + 4 * stored_count(buf, order) <= buf.len())
}

pub open spec fn spec_de_vec_i32(buf: Seq<u8>, order: ByteOrder) -> Option<Seq<i32>> {
    if buf.len() == 0 || buf[0] != TAG_VEC_INT {
        None
    } else {
        Some(i32s_at(buf, 1 + usize_width(), stored_count(buf, order), order))
    }
}

/// Appends the four-byte encodings of the integers of `v`.
fn push_i32s(out: &mut Vec<u8>, v: &[i32], order: ByteOrder)
    ensures
        final(out)@ == old(out)@ + i32s_bytes(v@, order),
{
    let mut i: usize = 0;
    while i < v.len()
        invariant
            i <= v@.len(),
            out@ == old(out)@ + i32s_bytes(v@.subrange(0, i as int), order),
        decreases v@.len() - i,
    {
        proof {
            lemma_concat_map_push(v@.subrange(0, i as int), v@[i as int], |x: i32| i32_bytes(x, order));
            assert(v@.subrange(0, i + 1) =~= v@.subrange(0, i as int).push(v@[i as int]));
        }
        push_i32(out, v[i], order);
        i = i + 1;
    }
    assert(v@.subrange(0, i as int) =~= v@);
}

pub fn ser_vec_i32_in(v: &[i32], order: ByteOrder) -> (r: Vec<u8>)
    ensures
        r@ == spec_ser_vec_i32(v@, order),
{
    let mut r = Vec::new();
    r.push(TAG_VEC_INT);
    push_usize(&mut r, v.len(), order);
    push_i32s(&mut r, v, order);
    r
}

pub fn ser_vec_i32(v: &[i32]) -> (r: Vec<u8>)
    ensures
        in_some_order(|o: ByteOrder| spec_ser_vec_i32(v@, o), r@),
{
    ser_vec_i32_in(v, native_byte_order())
}

/// Reads `n` integers starting at `off`.
fn read_i32s(buf: &[u8], off: usize, n: usize, order: ByteOrder) -> (r: Vec<i32>)
    requires
        off + 4 * n <= buf@.len(),
    ensures
        r@ == i32s_at(buf@, off as int, n as nat, order),
{
    let mut r: Vec<i32> = Vec::new();
    let mut k: usize = 0;
    let mut pos = off;
    let blen = buf.len();
    while k < n
        invariant
            blen == buf@.len(),
            k <= n,
            off + 4 * n <= buf@.len(),
            pos == off + 4 * k,
            r@ == i32s_at(buf@, off as int, k as nat, order),
        decreases n - k,
    {
        let x = read_i32(buf, pos, order);
        r.push(x);
        pos = pos + 4;
        k = k + 1;
        assert(r@ =~= i32s_at(buf@, off as int, k as nat, order));
    }
    r
}

pub fn de_vec_i32_in(buf: &[u8], order: ByteOrder) -> (r: Option<Vec<i32>>)
    requires
        de_vec_i32_fits(buf@, order),
    ensures
        r is Some <==> spec_de_vec_i32(buf@, order) is Some,
        r matches Some(v) ==> v@ == spec_de_vec_i32(buf@, order)->0,
{
    if buf.len() == 0 || buf[0] != TAG_VEC_INT {
        return None;
    }
    let n = read_usize_at(buf, 1, order);
    let w = usize_byte_width();
    Some(read_i32s(buf, 1 + w, n, order))
}

/// Checks that decoding a list of integers stays inside the buffer.
pub fn check_vec_i32_fits(buf: &[u8], order: ByteOrder) -> (r: bool)
    ensures
        r == de_vec_i32_fits(buf@, order),
{
    if buf.len() == 0 || buf[0] != TAG_VEC_INT {
        return true;
    }
    let w = usize_byte_width();
    if buf.len() < 1 + w {
        return false;
    }
    let n = read_usize_at(buf, 1, order);
    let room = buf.len() - 1 - w;
    n <= room / 4
}

/// Decodes a list of integers in the native byte order; `None` when the tag
/// differs or the stored count runs past the end of the buffer.
pub fn de_vec_i32(buf: &[u8]) -> (r: Option<Vec<i32>>)
    ensures
        in_some_order(
            |o: ByteOrder|
                if de_vec_i32_fits(buf@, o) {
                    spec_de_vec_i32(buf@, o)
                } else {
                    None
                },
            match r {
                Some(v) => Some(v@),
                None => None,
            },
        ),
{
    let order = native_byte_order();
    if !check_vec_i32_fits(buf, order) {
        return None;
    }
    de_vec_i32_in(buf, order)
}

pub proof fn lemma_i32s_bytes(v: Seq<i32>, order: ByteOrder)
    ensures
        i32s_bytes(v, order).len() == 4 * v.len(),
        forall|i: int|
            0 <= i < v.len() ==> i32s_bytes(v, order).subrange(4 * i, 4 * i + 4) =~= i32_bytes(
                #[trigger] v[i],
                order,
            ),
{
    let f = |x: i32| i32_bytes(x, order);
    assert forall|x: i32| #[trigger] f(x).len() == 4 by {
        lemma_i32_roundtrip(x, order);
    }
    lemma_concat_map_fixed(v, f, 4);
}

/// A list of integers survives encoding and decoding in the same byte order.
pub proof fn law_vec_i32_roundtrip(v: Seq<i32>, order: ByteOrder)
    requires
        v.len() <= usize::MAX,
    ensures
        de_vec_i32_fits(spec_ser_vec_i32(v, order), order),
        spec_de_vec_i32(spec_ser_vec_i32(v, order), order) == Some(v),
{
    let buf = spec_ser_vec_i32(v, order);
    let w = usize_width();
    lemma_usize_roundtrip(v.len() as usize, order);
    lemma_i32s_bytes(v, order);
    assert(buf.subrange(1, 1 + w) =~= usize_bytes(v.len(), order));
    let d = i32s_at(buf, 1 + w, v.len(), order);
    assert forall|i: int| 0 <= i < v.len() implies d[i] == v[i] by {
        lemma_i32_roundtrip(v[i], order);
        assert(buf.subrange(1 + w + 4 * i, 1 + w + 4 * i + 4) =~= i32s_bytes(v, order).subrange(
            4 * i,
            4 * i + 4,
        ));
    }
    assert(d =~= v);
}

// ----------------------------------------------------------------------------
// Lists of strings
// ----------------------------------------------------------------------------
/// One string of a list: its UTF-8 length, then its UTF-8 bytes.
pub open spec fn str_entry(s: Seq<char>, order: ByteOrder) -> Seq<u8> {
    usize_bytes(encode_utf8(s).len(), order) + encode_utf8(s)
}

pub open spec fn strs_bytes(v: Seq<Seq<char>>, order: ByteOrder) -> Seq<u8> {
    concat_map(v, |s: Seq<char>| str_entry(s, order))
}

pub open spec fn spec_ser_vec_string(v: Seq<Seq<char>>, order: ByteOrder) -> Seq<u8> {
    seq![TAG_VEC_STRING] + usize_bytes(v.len(), order) + strs_bytes(v, order)
}

/// The length stored at `off`.
pub open spec fn len_at(buf: Seq<u8>, off: int, order: ByteOrder) -> int {
    uint_value(buf.subrange(off, off + usize_width()), order) as int
}

/// Reading `k` strings from `off` stays inside the buffer, up to the first
/// string that is not valid UTF-8.
pub open spec fn strings_fit(buf: Seq<u8>, off: int, k: nat, order: ByteOrder) -> bool
    decreases k,
{
    k == 0 || {
        let w = usize_width();
        let sl = len_at(buf, off, order);
        &&& 0 <= off
        &&& off + w <= buf.len()
        &&& off + w + sl <= buf.len()
        &&& (valid_utf8(buf.subrange(off + w, off + w + sl)) ==> strings_fit(
            buf,
            off + w + sl,
            (k - 1) as nat,
            order,
        ))
    }
}

/// The `k` strings read from `off`; `None` when one of them is not valid
/// UTF-8.
pub open spec fn strings_at(buf: Seq<u8>, off: int, k: nat, order: ByteOrder) -> Option<
    Seq<Seq<char>>,
>
    decreases k,
{
    if k == 0 {
        Some(seq![])
    } else {
        let w = usize_width();
        let sl = len_at(buf, off, order);
        let b = buf.subrange(off + w, off + w + sl);
        if !valid_utf8(b) {
            None
        } else {
            match strings_at(buf, off + w + sl, (k - 1) as nat, order) {
                Some(rest) => Some(seq![decode_utf8(b)] + rest),
                None => None,
            }
        }
    }
}

pub open spec fn de_vec_string_fits(buf: Seq<u8>, order: ByteOrder) -> bool {
    buf.len() == 0 || buf[0] != TAG_VEC_STRING || (1 + usize_width() <= buf.len()
        && strings_fit(buf, 1 + usize_width(), stored_count(buf, order), order))
}

pub open spec fn spec_de_vec_string(buf: Seq<u8>, order: ByteOrder) -> Option<Seq<Seq<char>>> {
    if buf.len() == 0 || buf[0] != TAG_VEC_STRING {
        None
    } else {
        strings_at(buf, 1 + usize_width(), stored_count(buf, order), order)
    }
}

pub fn ser_vec_string_in(v: &[String], order: ByteOrder) -> (r: Vec<u8>)
    ensures
        r@ == spec_ser_vec_string(v.deep_view(), order),
        forall|i: int| 0 <= i < v@.len() ==> encode_utf8(#[trigger] v.deep_view()[i]).len() <= usize::MAX,
{
    let mut r = Vec::new();
    r.push(TAG_VEC_STRING);
    push_usize(&mut r, v.len(), order);
    let ghost start = r@;
    let mut i: usize = 0;
    while i < v.len()
        invariant
            i <= v@.len(),
            start == seq![TAG_VEC_STRING] + usize_bytes(v@.len() as nat, order),
            r@ == start + strs_bytes(v.deep_view().subrange(0, i as int), order),
            forall|j: int| 0 <= j < i ==> encode_utf8(#[trigger] v.deep_view()[j]).len() <= usize::MAX,
        decreases v@.len() - i,
    {
        let s = v[i].as_str();
        let n = s.as_bytes().len();
        assert(encode_utf8(v.deep_view()[i as int]).len() <= usize::MAX);
        proof {
            lemma_concat_map_push(
                v.deep_view().subrange(0, i as int),
                v.deep_view()[i as int],
                |s: Seq<char>| str_entry(s, order),
            );
            assert(v.deep_view().subrange(0, i + 1) =~= v.deep_view().subrange(0, i as int).push(
                v.deep_view()[i as int],
            ));
        }
        push_usize(&mut r, n, order);
        push_utf8(&mut r, s);
        i = i + 1;
        assert(r@ =~= start + strs_bytes(v.deep_view().subrange(0, i as int), order));
    }
    assert(v.deep_view().subrange(0, i as int) =~= v.deep_view());
    r
}

pub fn ser_vec_string(v: &[String]) -> (r: Vec<u8>)
    ensures
        in_some_order(|o: ByteOrder| spec_ser_vec_string(v.deep_view(), o), r@),
        forall|i: int| 0 <= i < v@.len() ==> encode_utf8(#[trigger] v.deep_view()[i]).len() <= usize::MAX,
{
    ser_vec_string_in(v, native_byte_order())
}

pub fn de_vec_string_in(buf: &[u8], order: ByteOrder) -> (r: Option<Vec<String>>)
    requires
        de_vec_string_fits(buf@, order),
    ensures
        r is Some <==> spec_de_vec_string(buf@, order) is Some,
        r matches Some(v) ==> v.deep_view() == spec_de_vec_string(buf@, order)->0,
{
    if buf.len() == 0 || buf[0] != TAG_VEC_STRING {
        return None;
    }
    let n = read_usize_at(buf, 1, order);
    let w = usize_byte_width();
    let ghost whole = strings_at(buf@, 1 + w, n as nat, order);
    assert(whole == spec_de_vec_string(buf@, order));
    let mut out: Vec<String> = Vec::new();
    let mut off = 1 + w;
    let mut k: usize = 0;
    let blen = buf.len();
    while k < n
        invariant
            blen == buf@.len(),
            whole == spec_de_vec_string(buf@, order),
            k <= n,
            w == usize_width(),
            strings_fit(buf@, off as int, (n - k) as nat, order),
            whole == match strings_at(buf@, off as int, (n - k) as nat, order) {
                Some(rest) => Some(out.deep_view() + rest),
                None => None,
            },
        decreases n - k,
    {
        let sl = read_usize_at(buf, off, order);
        let bytes = copy_range(buf, off + w, off + w + sl);
        match string_from_utf8(bytes) {
            None => {
                assert(!valid_utf8(buf@.subrange(off + w, off + w + sl)));
                assert(strings_at(buf@, off as int, (n - k) as nat, order) is None);
                return None;
            },
            Some(s) => {
                let ghost before = out.deep_view();
                let ghost next = strings_at(buf@, off + w + sl, (n - k - 1) as nat, order);
                out.push(s);
                assert(out.deep_view() =~= before.push(s@));
                proof {
                    match next {
                        Some(rest) => {
                            assert(before + (seq![s@] + rest) =~= out.deep_view() + rest);
                        },
                        None => {},
                    }
                }
                off = off + w + sl;
                k = k + 1;
            },
        }
    }
    assert(out.deep_view() + Seq::<Seq<char>>::empty() =~= out.deep_view());
    Some(out)
}

/// Checks that decoding a list of strings stays inside the buffer.
pub fn check_vec_string_fits(buf: &[u8], order: ByteOrder) -> (r: bool)
    ensures
        r == de_vec_string_fits(buf@, order),
{
    if buf.len() == 0 || buf[0] != TAG_VEC_STRING {
        return true;
    }
    let w = usize_byte_width();
    if buf.len() < 1 + w {
        return false;
    }
    let n = read_usize_at(buf, 1, order);
    let mut off = 1 + w;
    let mut k: usize = 0;
    while k < n
        invariant
            k <= n,
            w == usize_width(),
            1 + w <= off <= buf@.len(),
            de_vec_string_fits(buf@, order) == strings_fit(buf@, off as int, (n - k) as nat, order),
        decreases n - k,
    {
        if buf.len() - off < w {
            return false;
        }
        let sl = read_usize_at(buf, off, order);
        if buf.len() - off - w < sl {
            return false;
        }
        let bytes = copy_range(buf, off + w, off + w + sl);
        if string_from_utf8(bytes).is_none() {
            return true;
        }
        off = off + w + sl;
        k = k + 1;
    }
    true
}

/// Decodes a list of strings in the native byte order; `None` when the tag
/// differs, a string is not valid UTF-8, or a stored length runs past the
/// end of the buffer.
pub fn de_vec_string(buf: &[u8]) -> (r: Option<Vec<String>>)
    ensures
        in_some_order(
            |o: ByteOrder|
                if de_vec_string_fits(buf@, o) {
                    spec_de_vec_string(buf@, o)
                } else {
                    None
                },
            match r {
                Some(v) => Some(v.deep_view()),
                None => None,
            },
        ),
{
    let order = native_byte_order();
    if !check_vec_string_fits(buf, order) {
        return None;
    }
    de_vec_string_in(buf, order)
}

/// Strings laid out one after the other from `off` are read back.
pub proof fn lemma_strings_decode(buf: Seq<u8>, off: int, v: Seq<Seq<char>>, order: ByteOrder)
    requires
        0 <= off,
        off + strs_bytes(v, order).len() <= buf.len(),
        buf.subrange(off, off + strs_bytes(v, order).len()) == strs_bytes(v, order),
        forall|i: int| 0 <= i < v.len() ==> encode_utf8(#[trigger] v[i]).len() <= usize::MAX,
    ensures
        strings_fit(buf, off, v.len(), order),
        strings_at(buf, off, v.len(), order) == Some(v),
    decreases v.len(),
{
    if v.len() > 0 {
        let w = usize_width();
        let e = encode_utf8(v[0]);
        let rest = v.drop_first();
        let c = strs_bytes(v, order);
        let cr = strs_bytes(rest, order);
        assert(c == str_entry(v[0], order) + cr);
        lemma_usize_roundtrip(e.len() as usize, order);
        assert(buf.subrange(off, off + w) =~= usize_bytes(e.len(), order)) by {
            assert(buf.subrange(off, off + w) =~= c.subrange(0, w));
        }
        assert(len_at(buf, off, order) == e.len());
        assert(buf.subrange(off + w, off + w + e.len()) =~= e) by {
            assert(buf.subrange(off + w, off + w + e.len()) =~= c.subrange(w, w + e.len()));
        }
        assert forall|i: int| 0 <= i < rest.len() implies encode_utf8(#[trigger] rest[i]).len()
            <= usize::MAX by {
            assert(rest[i] == v[i + 1]);
        }
        assert(buf.subrange(off + w + e.len(), off + w + e.len() + cr.len()) =~= cr) by {
            assert(buf.subrange(off + w + e.len(), off + w + e.len() + cr.len()) =~= c.subrange(
                w + e.len(),
                c.len() as int,
            ));
        }
        lemma_strings_decode(buf, off + w + e.len(), rest, order);
        assert(seq![v[0]] + rest =~= v);
    }
}

/// A list of strings survives encoding and decoding in the same byte order.
pub proof fn law_vec_string_roundtrip(v: Seq<Seq<char>>, order: ByteOrder)
    requires
        v.len() <= usize::MAX,
        forall|i: int| 0 <= i < v.len() ==> encode_utf8(#[trigger] v[i]).len() <= usize::MAX,
    ensures
        de_vec_string_fits(spec_ser_vec_string(v, order), order),
        spec_de_vec_string(spec_ser_vec_string(v, order), order) == Some(v),
{
    let buf = spec_ser_vec_string(v, order);
    let w = usize_width();
    lemma_usize_roundtrip(v.len() as usize, order);
    assert(buf.subrange(1, 1 + w) =~= usize_bytes(v.len(), order));
    let c = strs_bytes(v, order);
    assert(buf.subrange(1 + w, 1 + w + c.len()) =~= c);
    lemma_strings_decode(buf, 1 + w, v, order);
}

// ----------------------------------------------------------------------------
// Lists of lists of integers
// ----------------------------------------------------------------------------
/// One row of a list of lists: its length, then its integers.
pub open spec fn row_entry(r: Seq<i32>, order: ByteOrder) -> Seq<u8> {
    usize_bytes(r.len(), order) + i32s_bytes(r, order)
}

pub open spec fn rows_bytes(v: Seq<Seq<i32>>, order: ByteOrder) -> Seq<u8> {
    concat_map(v, |r: Seq<i32>| row_entry(r, order))
}

pub open spec fn spec_ser_vec_vec_i32(v: Seq<Seq<i32>>, order: ByteOrder) -> Seq<u8> {
    seq![TAG_VEC_VEC_INT] + usize_bytes(v.len(), order) + rows_bytes(v, order)
}

/// Reading `k` rows from `off` stays inside the buffer.
pub open spec fn rows_fit(buf: Seq<u8>, off: int, k: nat, order: ByteOrder) -> bool
    decreases k,
{
    k == 0 || {
        let w = usize_width();
        let n = len_at(buf, off, order);
        &&& 0 <= off
        &&& off + w <= buf.len()
        &&& off + w + 4 * n <= buf.len()
        &&& rows_fit(buf, off + w + 4 * n, (k - 1) as nat, order)
    }
}

/// The `k` rows read from `off`.
pub open spec fn rows_at(buf: Seq<u8>, off: int, k: nat, order: ByteOrder) -> Seq<Seq<i32>>
    decreases k,
{
    if k == 0 {
        seq![]
    } else {
        let w = usize_width();
        let n = len_at(buf, off, order);
        seq![i32s_at(buf, off + w, n as nat, order)] + rows_at(
            buf,
            off + w + 4 * n,
            (k - 1) as nat,
            order,
        )
    }
}

pub open spec fn de_vec_vec_i32_fits(buf: Seq<u8>, order: ByteOrder) -> bool {
    buf.len() == 0 || buf[0] != TAG_VEC_VEC_INT || (1 + usize_width() <= buf.len() && rows_fit(
        buf,
        1 + usize_width(),
        stored_count(buf, order),
        order,
    ))
}

pub open spec fn spec_de_vec_vec_i32(buf: Seq<u8>, order: ByteOrder) -> Option<Seq<Seq<i32>>> {
    if buf.len() == 0 || buf[0] != TAG_VEC_VEC_INT {
        None
    } else {
        Some(rows_at(buf, 1 + usize_width(), stored_count(buf, order), order))
    }
}

pub fn ser_vec_vec_i32_in(v: &[Vec<i32>], order: ByteOrder) -> (r: Vec<u8>)
    ensures
        r@ == spec_ser_vec_vec_i32(v.deep_view(), order),
{
    let mut r = Vec::new();
    r.push(TAG_VEC_VEC_INT);
    push_usize(&mut r, v.len(), order);
    let ghost start = r@;
    let mut i: usize = 0;
    while i < v.len()
        invariant
            i <= v@.len(),
            start == seq![TAG_VEC_VEC_INT] + usize_bytes(v@.len() as nat, order),
            r@ == start + rows_bytes(v.deep_view().subrange(0, i as int), order),
        decreases v@.len() - i,
    {
        proof {
            lemma_concat_map_push(
                v.deep_view().subrange(0, i as int),
                v.deep_view()[i as int],
                |r: Seq<i32>| row_entry(r, order),
            );
            assert(v.deep_view().subrange(0, i + 1) =~= v.deep_view().subrange(0, i as int).push(
                v.deep_view()[i as int],
            ));
        }
        let row = &v[i];
        assert(v.deep_view()[i as int] =~= row@);
        push_usize(&mut r, row.len(), order);
        push_i32s(&mut r, row.as_slice(), order);
        i = i + 1;
        assert(r@ =~= start + rows_bytes(v.deep_view().subrange(0, i as int), order));
    }
    assert(v.deep_view().subrange(0, i as int) =~= v.deep_view());
    r
}

pub fn ser_vec_vec_i32(v: &[Vec<i32>]) -> (r: Vec<u8>)
    ensures
        in_some_order(|o: ByteOrder| spec_ser_vec_vec_i32(v.deep_view(), o), r@),
{
    ser_vec_vec_i32_in(v, native_byte_order())
}

pub fn de_vec_vec_i32_in(buf: &[u8], order: ByteOrder) -> (r: Option<Vec<Vec<i32>>>)
    requires
        de_vec_vec_i32_fits(buf@, order),
    ensures
        r is Some <==> spec_de_vec_vec_i32(buf@, order) is Some,
        r matches Some(v) ==> v.deep_view() == spec_de_vec_vec_i32(buf@, order)->0,
{
    if buf.len() == 0 || buf[0] != TAG_VEC_VEC_INT {
        return None;
    }
    let n = read_usize_at(buf, 1, order);
    let w = usize_byte_width();
    let ghost whole = rows_at(buf@, 1 + w, n as nat, order);
    let mut out: Vec<Vec<i32>> = Vec::new();
    let mut off = 1 + w;
    let mut k: usize = 0;
    let blen = buf.len();
    while k < n
        invariant
            blen == buf@.len(),
            whole == spec_de_vec_vec_i32(buf@, order)->0,
            k <= n,
            w == usize_width(),
            rows_fit(buf@, off as int, (n - k) as nat, order),
            whole == out.deep_view() + rows_at(buf@, off as int, (n - k) as nat, order),
        decreases n - k,
    {
        let il = read_usize_at(buf, off, order);
        let row = read_i32s(buf, off + w, il, order);
        let ghost before = out.deep_view();
        assert(row.deep_view() =~= row@);
        out.push(row);
        assert(out.deep_view() =~= before.push(row@));
        let ghost tail = rows_at(buf@, off + w + 4 * il, (n - k - 1) as nat, order);
        assert(before + (seq![row@] + tail) =~= out.deep_view() + tail);
        off = off + w + 4 * il;
        k = k + 1;
    }
    assert(out.deep_view() + Seq::<Seq<i32>>::empty() =~= out.deep_view());
    Some(out)
}

/// Checks that decoding a list of lists of integers stays inside the buffer.
pub fn check_vec_vec_i32_fits(buf: &[u8], order: ByteOrder) -> (r: bool)
    ensures
        r == de_vec_vec_i32_fits(buf@, order),
{
    if buf.len() == 0 || buf[0] != TAG_VEC_VEC_INT {
        return true;
    }
    let w = usize_byte_width();
    if buf.len() < 1 + w {
        return false;
    }
    let n = read_usize_at(buf, 1, order);
    let mut off = 1 + w;
    let mut k: usize = 0;
    while k < n
        invariant
            k <= n,
            w == usize_width(),
            1 + w <= off <= buf@.len(),
            de_vec_vec_i32_fits(buf@, order) == rows_fit(buf@, off as int, (n - k) as nat, order),
        decreases n - k,
    {
        if buf.len() - off < w {
            return false;
        }
        let il = read_usize_at(buf, off, order);
        if (buf.len() - off - w) / 4 < il {
            return false;
        }
        off = off + w + 4 * il;
        k = k + 1;
    }
    true
}

/// Decodes a list of lists of integers in the native byte order; `None`
/// when the tag differs or a stored length runs past the end of the buffer.
pub fn de_vec_vec_i32(buf: &[u8]) -> (r: Option<Vec<Vec<i32>>>)
    ensures
        in_some_order(
            |o: ByteOrder|
                if de_vec_vec_i32_fits(buf@, o) {
                    spec_de_vec_vec_i32(buf@, o)
                } else {
                    None
                },
            match r {
                Some(v) => Some(v.deep_view()),
                None => None,
            },
        ),
{
    let order = native_byte_order();
    if !check_vec_vec_i32_fits(buf, order) {
        return None;
    }
    de_vec_vec_i32_in(buf, order)
}

/// Rows laid out one after the other from `off` are read back.
pub proof fn lemma_rows_decode(buf: Seq<u8>, off: int, v: Seq<Seq<i32>>, order: ByteOrder)
    requires
        0 <= off,
        off + rows_bytes(v, order).len() <= buf.len(),
        buf.subrange(off, off + rows_bytes(v, order).len()) == rows_bytes(v, order),
        forall|i: int| 0 <= i < v.len() ==> (#[trigger] v[i]).len() <= usize::MAX,
    ensures
        rows_fit(buf, off, v.len(), order),
        rows_at(buf, off, v.len(), order) == v,
    decreases v.len(),
{
    if v.len() > 0 {
        let w = usize_width();
        let r0 = v[0];
        let rest = v.drop_first();
        let c = rows_bytes(v, order);
        let cr = rows_bytes(rest, order);
        let b0 = i32s_bytes(r0, order);
        assert(c == row_entry(r0, order) + cr);
        lemma_usize_roundtrip(r0.len() as usize, order);
        lemma_i32s_bytes(r0, order);
        assert(buf.subrange(off, off + w) =~= usize_bytes(r0.len(), order)) by {
            assert(buf.subrange(off, off + w) =~= c.subrange(0, w));
        }
        assert(len_at(buf, off, order) == r0.len());
        let d = i32s_at(buf, off + w, r0.len(), order);
        assert forall|j: int| 0 <= j < r0.len() implies d[j] == r0[j] by {
            lemma_i32_roundtrip(r0[j], order);
            assert(buf.subrange(off + w + 4 * j, off + w + 4 * j + 4) =~= c.subrange(
                w + 4 * j,
                w + 4 * j + 4,
            ));
            assert(c.subrange(w + 4 * j, w + 4 * j + 4) =~= b0.subrange(4 * j, 4 * j + 4));
        }
        assert(d =~= r0);
        assert forall|i: int| 0 <= i < rest.len() implies (#[trigger] rest[i]).len()
            <= usize::MAX by {
            assert(rest[i] == v[i + 1]);
        }
        assert(buf.subrange(off + w + b0.len(), off + w + b0.len() + cr.len()) =~= cr) by {
            assert(buf.subrange(off + w + b0.len(), off + w + b0.len() + cr.len())
                =~= c.subrange(w + b0.len(), c.len() as int));
        }
        lemma_rows_decode(buf, off + w + 4 * r0.len(), rest, order);
        assert(seq![r0] + rest =~= v);
    }
}

/// A list of lists of integers survives encoding and decoding in the same
/// byte order.
pub proof fn law_vec_vec_i32_roundtrip(v: Seq<Seq<i32>>, order: ByteOrder)
    requires
        v.len() <= usize::MAX,
        forall|i: int| 0 <= i < v.len() ==> (#[trigger] v[i]).len() <= usize::MAX,
    ensures
        de_vec_vec_i32_fits(spec_ser_vec_vec_i32(v, order), order),
        spec_de_vec_vec_i32(spec_ser_vec_vec_i32(v, order), order) == Some(v),
{
    let buf = spec_ser_vec_vec_i32(v, order);
    let w = usize_width();
    lemma_usize_roundtrip(v.len() as usize, order);
    assert(buf.subrange(1, 1 + w) =~= usize_bytes(v.len(), order));
    let c = rows_bytes(v, order);
    assert(buf.subrange(1 + w, 1 + w + c.len()) =~= c);
    lemma_rows_decode(buf, 1 + w, v, order);
}

// ----------------------------------------------------------------------------
// Instance references
// ----------------------------------------------------------------------------
/// One instance reference: its kind byte, then the number it is referenced
/// under.
pub open spec fn inst_entry(x: IfcBaseClass, order: ByteOrder) -> Seq<u8> {
    seq![kind_byte(x.is_entity)] + usize_bytes(ref_id(x) as nat, order)
}

pub open spec fn insts_bytes(a: Seq<Arc<IfcBaseClass>>, order: ByteOrder) -> Seq<u8> {
    concat_map(a, |x: Arc<IfcBaseClass>| inst_entry(*x, order))
}

/// The numbers under which the instances of `a` are referenced.
pub open spec fn inst_refs(a: Seq<Arc<IfcBaseClass>>) -> Seq<(bool, usize)> {
    a.map_values(|x: Arc<IfcBaseClass>| inst_ref(*x))
}

/// Appends the reference of one instance.
fn push_inst(out: &mut Vec<u8>, x: &IfcBaseClass, order: ByteOrder)
    ensures
        final(out)@ == old(out)@ + inst_entry(*x, order),
{
    out.push(if x.is_entity { 105u8 } else { 116u8 });
    let id = if x.id != 0 { x.id } else { x.identity };
    push_usize(out, id, order);
    assert(out@ =~= old(out)@ + inst_entry(*x, order));
}

/// Appends the references of the instances of `a`.
fn push_insts(out: &mut Vec<u8>, a: &Vec<Arc<IfcBaseClass>>, order: ByteOrder)
    ensures
        final(out)@ == old(out)@ + insts_bytes(a@, order),
{
    let mut i: usize = 0;
    while i < a.len()
        invariant
            i <= a@.len(),
            out@ == old(out)@ + insts_bytes(a@.subrange(0, i as int), order),
        decreases a@.len() - i,
    {
        proof {
            lemma_concat_map_push(
                a@.subrange(0, i as int),
                a@[i as int],
                |x: Arc<IfcBaseClass>| inst_entry(*x, order),
            );
            assert(a@.subrange(0, i + 1) =~= a@.subrange(0, i as int).push(a@[i as int]));
        }
        let x: &IfcBaseClass = &a[i];
        push_inst(out, x, order);
        i = i + 1;
    }
    assert(a@.subrange(0, i as int) =~= a@);
}

pub open spec fn spec_serialize_ifcptr(x: IfcBaseClass, order: ByteOrder) -> Seq<u8> {
    seq![TAG_IFCPTR] + inst_entry(x, order)
}

pub fn serialize_ifcptr_in(val: &Arc<IfcBaseClass>, order: ByteOrder) -> (r: Vec<u8>)
    ensures
        r@ == spec_serialize_ifcptr(**val, order),
{
    let mut r = Vec::new();
    r.push(TAG_IFCPTR);
    let x: &IfcBaseClass = &**val;
    push_inst(&mut r, x, order);
    assert(r@ =~= spec_serialize_ifcptr(**val, order));
    r
}

pub fn serialize_ifcptr(val: &Arc<IfcBaseClass>) -> (r: Vec<u8>)
    ensures
        in_some_order(|o: ByteOrder| spec_serialize_ifcptr(**val, o), r@),
{
    serialize_ifcptr_in(val, native_byte_order())
}

/// The reference stored at `off`: whether its kind byte says entity
/// instance (`i`), and the number stored after that byte.
pub open spec fn ref_at(buf: Seq<u8>, off: int, order: ByteOrder) -> (bool, usize) {
    (buf[off] == 105u8, len_at(buf, off + 1, order) as usize)
}

// ----------------------------------------------------------------------------
// Aggregates of instances
// ----------------------------------------------------------------------------
pub open spec fn spec_serialize_agg_inst(a: Seq<Arc<IfcBaseClass>>, order: ByteOrder) -> Seq<u8> {
    seq![TAG_AGG_INST] + insts_bytes(a, order)
}

/// Reading references from `off` to the end of the buffer stays inside it.
pub open spec fn entries_fit(buf: Seq<u8>, off: int, order: ByteOrder) -> bool
    decreases buf.len() - off,
{
    off >= buf.len() || (0 <= off && off + 1 + usize_width() <= buf.len() && entries_fit(
        buf,
        off + 1 + usize_width(),
        order,
    ))
}

/// The references (entity or type, number) read from `off` to the end of
/// the buffer.
pub open spec fn entries_ids(buf: Seq<u8>, off: int, order: ByteOrder) -> Seq<(bool, usize)>
    decreases buf.len() - off,
{
    if off >= buf.len() || off < 0 {
        seq![]
    } else if off + 1 + usize_width() > buf.len() {
        seq![ref_at(buf, off, order)]
    } else {
        seq![ref_at(buf, off, order)] + entries_ids(buf, off + 1 + usize_width(), order)
    }
}

pub open spec fn deserialize_agg_inst_fits(buf: Seq<u8>, order: ByteOrder) -> bool {
    buf.len() == 0 || buf[0] != TAG_AGG_INST || entries_fit(buf, 1, order)
}

/// The references (entity or type, number) of a decoded aggregate of
/// instances.
pub open spec fn spec_deserialize_agg_inst(buf: Seq<u8>, order: ByteOrder) -> Option<Seq<(bool, usize)>> {
    if buf.len() == 0 || buf[0] != TAG_AGG_INST {
        None
    } else {
        Some(entries_ids(buf, 1, order))
    }
}

/// The instances of `a` are the generic instances named by `ids`.
pub open spec fn generic_instances(a: Seq<Arc<IfcBaseClass>>, ids: Seq<(bool, usize)>) -> bool {
    &&& a.len() == ids.len()
    &&& forall|i: int| 0 <= i < a.len() ==> is_generic_instance(*#[trigger] a[i], ids[i])
}

pub fn serialize_agg_inst_in(a: &AggregateOfInstance, order: ByteOrder) -> (r: Vec<u8>)
    ensures
        r@ == spec_serialize_agg_inst(a@, order),
{
    let mut r = Vec::new();
    r.push(TAG_AGG_INST);
    push_insts(&mut r, a.iter(), order);
    r
}

pub fn serialize_agg_inst(a: &AggregateOfInstance) -> (r: Vec<u8>)
    ensures
        in_some_order(|o: ByteOrder| spec_serialize_agg_inst(a@, o), r@),
{
    serialize_agg_inst_in(a, native_byte_order())
}

/// The generic instance that a decoder makes of a reference.
pub(crate) fn generic_instance(is_entity: bool, id: usize) -> (r: Arc<IfcBaseClass>)
    ensures
        is_generic_instance(*r, (is_entity, id)),
{
    Arc::new(IfcBaseClass::new(id, id, "IFCGENERIC", is_entity))
}

pub fn deserialize_agg_inst_in(buf: &[u8], order: ByteOrder) -> (r: Option<AggregateOfInstance>)
    requires
        deserialize_agg_inst_fits(buf@, order),
    ensures
        r is Some <==> spec_deserialize_agg_inst(buf@, order) is Some,
        r matches Some(a) ==> generic_instances(a@, spec_deserialize_agg_inst(buf@, order)->0),
{
    if buf.len() == 0 || buf[0] != TAG_AGG_INST {
        return None;
    }
    let w = usize_byte_width();
    let ghost whole = entries_ids(buf@, 1, order);
    let ghost mut got: Seq<(bool, usize)> = seq![];
    let mut out = AggregateOfInstance::new();
    let mut off: usize = 1;
    let blen = buf.len();
    while off < blen
        invariant
            blen == buf@.len(),
            w == usize_width(),
            1 <= off,
            entries_fit(buf@, off as int, order),
            whole == got + entries_ids(buf@, off as int, order),
            generic_instances(out@, got),
        decreases blen - off,
    {
        let entity = buf[off] == 105u8;
        let id = read_usize_at(buf, off + 1, order);
        assert(entries_ids(buf@, off as int, order) =~= seq![(entity, id)] + entries_ids(
            buf@,
            off + 1 + w,
            order,
        ));
        out.push(generic_instance(entity, id));
        proof {
            assert(got + (seq![(entity, id)] + entries_ids(buf@, off + 1 + w, order)) =~= got.push((entity, id))
                + entries_ids(buf@, off + 1 + w, order));
            got = got.push((entity, id));
        }
        off = off + 1 + w;
    }
    assert(got + Seq::<(bool, usize)>::empty() =~= got);
    Some(out)
}

/// Checks that decoding an aggregate of instances stays inside the buffer.
pub fn check_agg_inst_fits(buf: &[u8], order: ByteOrder) -> (r: bool)
    ensures
        r == deserialize_agg_inst_fits(buf@, order),
{
    if buf.len() == 0 || buf[0] != TAG_AGG_INST {
        return true;
    }
    let w = usize_byte_width();
    let mut off: usize = 1;
    while off < buf.len()
        invariant
            w == usize_width(),
            1 <= off,
            deserialize_agg_inst_fits(buf@, order) == entries_fit(buf@, off as int, order),
        decreases buf@.len() - off,
    {
        if buf.len() - off < 1 + w {
            return false;
        }
        off = off + 1 + w;
    }
    true
}

/// Decodes an aggregate of instances in the native byte order; `None` when
/// the tag differs or the references do not fill the buffer exactly.
pub fn deserialize_agg_inst(buf: &[u8]) -> (r: Option<AggregateOfInstance>)
    ensures
        r is Some ==> in_some_order(
            |o: ByteOrder|
                deserialize_agg_inst_fits(buf@, o) && spec_deserialize_agg_inst(buf@, o) is Some
                    && generic_instances(r->0@, spec_deserialize_agg_inst(buf@, o)->0),
            true,
        ),
        r is None ==> in_some_order(
            |o: ByteOrder|
                !deserialize_agg_inst_fits(buf@, o) || spec_deserialize_agg_inst(buf@, o) is None,
            true,
        ),
{
    let order = native_byte_order();
    if !check_agg_inst_fits(buf, order) {
        return None;
    }
    deserialize_agg_inst_in(buf, order)
}

/// References laid out one after the other from `off` to the end of the
/// buffer are read back.
pub proof fn lemma_entries_decode(buf: Seq<u8>, off: int, a: Seq<Arc<IfcBaseClass>>, order: ByteOrder)
    requires
        0 <= off,
        buf.len() == off + insts_bytes(a, order).len(),
        buf.subrange(off, buf.len() as int) == insts_bytes(a, order),
    ensures
        entries_fit(buf, off, order),
        entries_ids(buf, off, order) == inst_refs(a),
    decreases a.len(),
{
    lemma_usize_width();
    if a.len() == 0 {
        assert(inst_refs(a) =~= Seq::<(bool, usize)>::empty());
    } else {
        let w = usize_width();
        let x = *a[0];
        let rest = a.drop_first();
        let c = insts_bytes(a, order);
        let cr = insts_bytes(rest, order);
        assert(c == inst_entry(x, order) + cr);
        lemma_usize_roundtrip(ref_id(x), order);
        assert(buf.subrange(off + 1, off + 1 + w) =~= usize_bytes(ref_id(x) as nat, order)) by {
            assert(buf.subrange(off + 1, off + 1 + w) =~= c.subrange(1, 1 + w));
        }
        assert(buf.subrange(off + 1 + w, buf.len() as int) =~= cr) by {
            assert(buf.subrange(off + 1 + w, buf.len() as int) =~= c.subrange(1 + w, c.len() as int));
        }
        assert(buf[off] == c[0]);
        lemma_entries_decode(buf, off + 1 + w, rest, order);
        assert(inst_refs(a) =~= seq![inst_ref(x)] + inst_refs(rest));
    }
}

/// Decoding an encoded aggregate of instances gives back the references
/// (entity or type, number) of its instances, in order.
pub proof fn law_agg_inst_roundtrip(a: Seq<Arc<IfcBaseClass>>, order: ByteOrder)
    ensures
        deserialize_agg_inst_fits(spec_serialize_agg_inst(a, order), order),
        spec_deserialize_agg_inst(spec_serialize_agg_inst(a, order), order) == Some(inst_refs(a)),
{
    let buf = spec_serialize_agg_inst(a, order);
    assert(buf.subrange(1, buf.len() as int) =~= insts_bytes(a, order));
    lemma_entries_decode(buf, 1, a, order);
}

// ----------------------------------------------------------------------------
// Aggregates of aggregates of instances
// ----------------------------------------------------------------------------
/// One inner list: its length, then the references of its instances.
pub open spec fn group_entry(g: Seq<Arc<IfcBaseClass>>, order: ByteOrder) -> Seq<u8> {
    usize_bytes(g.len(), order) + insts_bytes(g, order)
}

pub open spec fn groups_bytes(a: Seq<Seq<Arc<IfcBaseClass>>>, order: ByteOrder) -> Seq<u8> {
    concat_map(a, |g: Seq<Arc<IfcBaseClass>>| group_entry(g, order))
}

pub open spec fn spec_serialize_agg_agg_inst(a: Seq<Seq<Arc<IfcBaseClass>>>, order: ByteOrder) -> Seq<u8> {
    seq![TAG_AGG_AGG_INST] + groups_bytes(a, order)
}

/// Where the inner list that starts at `off` ends.
pub open spec fn group_end(buf: Seq<u8>, off: int, order: ByteOrder) -> int {
    off + usize_width() + (1 + usize_width()) * len_at(buf, off, order)
}

/// Reading inner lists from `off` to the end of the buffer stays inside it.
pub open spec fn groups_fit(buf: Seq<u8>, off: int, order: ByteOrder) -> bool
    decreases buf.len() - off,
{
    off >= buf.len() || {
        &&& 0 <= off
        &&& off + usize_width() <= buf.len()
        &&& group_end(buf, off, order) <= buf.len()
        &&& off < group_end(buf, off, order)
        &&& groups_fit(buf, group_end(buf, off, order), order)
    }
}

/// The references of the inner list that starts at `off`.
pub open spec fn group_ids_at(buf: Seq<u8>, off: int, order: ByteOrder) -> Seq<(bool, usize)> {
    Seq::new(
        len_at(buf, off, order) as nat,
        |j: int| ref_at(buf, off + usize_width() + (1 + usize_width()) * j, order),
    )
}

/// The references of the inner lists read from `off` to the end.
pub open spec fn groups_ids(buf: Seq<u8>, off: int, order: ByteOrder) -> Seq<Seq<(bool, usize)>>
    decreases buf.len() - off,
{
    if off >= buf.len() || off < 0 || group_end(buf, off, order) <= off {
        seq![]
    } else if group_end(buf, off, order) > buf.len() {
        seq![group_ids_at(buf, off, order)]
    } else {
        seq![group_ids_at(buf, off, order)] + groups_ids(buf, group_end(buf, off, order), order)
    }
}

pub open spec fn deserialize_agg_agg_inst_fits(buf: Seq<u8>, order: ByteOrder) -> bool {
    buf.len() == 0 || buf[0] != TAG_AGG_AGG_INST || groups_fit(buf, 1, order)
}

pub open spec fn spec_deserialize_agg_agg_inst(buf: Seq<u8>, order: ByteOrder) -> Option<Seq<Seq<(bool, usize)>>> {
    if buf.len() == 0 || buf[0] != TAG_AGG_AGG_INST {
        None
    } else {
        Some(groups_ids(buf, 1, order))
    }
}

/// The references (entity or type, number) of the instances of each inner
/// list.
pub open spec fn groups_ref_ids(a: Seq<Seq<Arc<IfcBaseClass>>>) -> Seq<Seq<(bool, usize)>> {
    a.map_values(|g: Seq<Arc<IfcBaseClass>>| inst_refs(g))
}

/// Each inner list of `a` holds the generic instances named by `ids`.
pub open spec fn generic_groups(a: Seq<Seq<Arc<IfcBaseClass>>>, ids: Seq<Seq<(bool, usize)>>) -> bool {
    &&& a.len() == ids.len()
    &&& forall|i: int| 0 <= i < a.len() ==> generic_instances(#[trigger] a[i], ids[i])
}

pub fn serialize_agg_agg_inst_in(a: &AggregateOfAggregateOfInstance, order: ByteOrder) -> (r: Vec<u8>)
    ensures
        r@ == spec_serialize_agg_agg_inst(a@, order),
{
    let mut r = Vec::new();
    r.push(TAG_AGG_AGG_INST);
    let items = a.iter();
    let mut i: usize = 0;
    while i < items.len()
        invariant
            i <= items@.len(),
            items@.len() == a@.len(),
            forall|k: int| 0 <= k < items@.len() ==> #[trigger] items@[k]@ == a@[k],
            r@ == seq![TAG_AGG_AGG_INST] + groups_bytes(a@.subrange(0, i as int), order),
        decreases items@.len() - i,
    {
        proof {
            lemma_concat_map_push(
                a@.subrange(0, i as int),
                a@[i as int],
                |g: Seq<Arc<IfcBaseClass>>| group_entry(g, order),
            );
            assert(a@.subrange(0, i + 1) =~= a@.subrange(0, i as int).push(a@[i as int]));
        }
        let inner = &items[i];
        assert(inner@ == a@[i as int]);
        push_usize(&mut r, inner.len(), order);
        push_insts(&mut r, inner, order);
        i = i + 1;
        assert(r@ =~= seq![TAG_AGG_AGG_INST] + groups_bytes(a@.subrange(0, i as int), order));
    }
    assert(a@.subrange(0, i as int) =~= a@);
    r
}

pub fn serialize_agg_agg_inst(a: &AggregateOfAggregateOfInstance) -> (r: Vec<u8>)
    ensures
        in_some_order(|o: ByteOrder| spec_serialize_agg_agg_inst(a@, o), r@),
{
    serialize_agg_agg_inst_in(a, native_byte_order())
}

pub fn deserialize_agg_agg_inst_in(buf: &[u8], order: ByteOrder) -> (r: Option<AggregateOfAggregateOfInstance>)
    requires
        deserialize_agg_agg_inst_fits(buf@, order),
    ensures
        r is Some <==> spec_deserialize_agg_agg_inst(buf@, order) is Some,
        r matches Some(a) ==> generic_groups(a@, spec_deserialize_agg_agg_inst(buf@, order)->0),
{
    if buf.len() == 0 || buf[0] != TAG_AGG_AGG_INST {
        return None;
    }
    let w = usize_byte_width();
    let ghost whole = groups_ids(buf@, 1, order);
    let ghost mut got: Seq<Seq<(bool, usize)>> = seq![];
    let mut out = AggregateOfAggregateOfInstance::new();
    let mut off: usize = 1;
    let blen = buf.len();
    while off < blen
        invariant
            blen == buf@.len(),
            w == usize_width(),
            1 <= off,
            groups_fit(buf@, off as int, order),
            whole == got + groups_ids(buf@, off as int, order),
            generic_groups(out@, got),
        decreases blen - off,
    {
        let n = read_usize_at(buf, off, order);
        let ghost end = group_end(buf@, off as int, order);
        let ghost ids = group_ids_at(buf@, off as int, order);
        let mut inner: Vec<Arc<IfcBaseClass>> = Vec::new();
        let mut j: usize = 0;
        let mut pos = off + w;
        while j < n
            invariant
                blen == buf@.len(),
                w == usize_width(),
                j <= n,
                n == len_at(buf@, off as int, order),
                end == off + w + (1 + w) * n,
                end <= buf@.len(),
                pos == off + w + (1 + w) * j,
                ids == group_ids_at(buf@, off as int, order),
                generic_instances(inner@, ids.subrange(0, j as int)),
            decreases n - j,
        {
            assert((1 + w) * j + (1 + w) <= (1 + w) * n) by (nonlinear_arith)
                requires
                    j < n,
            ;
            assert((1 + w) * (j + 1) == (1 + w) * j + (1 + w)) by (nonlinear_arith);
            let entity = buf[pos] == 105u8;
            let id = read_usize_at(buf, pos + 1, order);
            assert(ids[j as int] == (entity, id));
            inner.push(generic_instance(entity, id));
            pos = pos + 1 + w;
            j = j + 1;
            assert(ids.subrange(0, j as int) =~= ids.subrange(0, j - 1).push((entity, id)));
        }
        assert(ids.subrange(0, j as int) =~= ids);
        out.push(inner);
        proof {
            assert(groups_ids(buf@, off as int, order) =~= seq![ids] + groups_ids(buf@, end, order));
            assert(got + (seq![ids] + groups_ids(buf@, end, order)) =~= got.push(ids)
                + groups_ids(buf@, end, order));
            got = got.push(ids);
        }
        off = pos;
    }
    assert(got + Seq::<Seq<(bool, usize)>>::empty() =~= got);
    Some(out)
}

/// Checks that decoding an aggregate of aggregates of instances stays
/// inside the buffer.
pub fn check_agg_agg_inst_fits(buf: &[u8], order: ByteOrder) -> (r: bool)
    ensures
        r == deserialize_agg_agg_inst_fits(buf@, order),
{
    if buf.len() == 0 || buf[0] != TAG_AGG_AGG_INST {
        return true;
    }
    let w = usize_byte_width();
    let mut off: usize = 1;
    while off < buf.len()
        invariant
            w == usize_width(),
            1 <= off,
            deserialize_agg_agg_inst_fits(buf@, order) == groups_fit(buf@, off as int, order),
        decreases buf@.len() - off,
    {
        if buf.len() - off < w {
            return false;
        }
        let n = read_usize_at(buf, off, order);
        let rem = buf.len() - off - w;
        let d = 1 + w;
        let q = rem / d;
        if q < n {
            assert(d * n > rem) by (nonlinear_arith)
                requires
                    q == rem / d,
                    q < n,
                    d >= 2,
            ;
            return false;
        }
        assert(d * n <= rem) by (nonlinear_arith)
            requires
                q == rem / d,
                n <= q,
                d >= 2,
        ;
        off = off + w + (1 + w) * n;
    }
    true
}

/// Decodes an aggregate of aggregates of instances in the native byte
/// order; `None` when the tag differs or the stored lengths do not fill the
/// buffer exactly.
pub fn deserialize_agg_agg_inst(buf: &[u8]) -> (r: Option<AggregateOfAggregateOfInstance>)
    ensures
        r is Some ==> in_some_order(
            |o: ByteOrder|
                deserialize_agg_agg_inst_fits(buf@, o) && spec_deserialize_agg_agg_inst(buf@, o) is Some
                    && generic_groups(r->0@, spec_deserialize_agg_agg_inst(buf@, o)->0),
            true,
        ),
        r is None ==> in_some_order(
            |o: ByteOrder|
                !deserialize_agg_agg_inst_fits(buf@, o) || spec_deserialize_agg_agg_inst(buf@, o) is None,
            true,
        ),
{
    let order = native_byte_order();
    if !check_agg_agg_inst_fits(buf, order) {
        return None;
    }
    deserialize_agg_agg_inst_in(buf, order)
}

pub proof fn lemma_insts_bytes(g: Seq<Arc<IfcBaseClass>>, order: ByteOrder)
    ensures
        insts_bytes(g, order).len() == (1 + usize_width()) * g.len(),
        forall|j: int|
            0 <= j < g.len() ==> insts_bytes(g, order).subrange(
                (1 + usize_width()) * j,
                (1 + usize_width()) * j + (1 + usize_width()),
            ) =~= inst_entry(*#[trigger] g[j], order),
{
    let f = |x: Arc<IfcBaseClass>| inst_entry(*x, order);
    assert forall|x: Arc<IfcBaseClass>| #[trigger] f(x).len() == 1 + usize_width() by {
        lemma_usize_roundtrip(ref_id(*x), order);
    }
    lemma_usize_width();
    lemma_concat_map_fixed(g, f, (1 + usize_width()) as nat);
}

/// Inner lists laid out one after the other from `off` to the end of the
/// buffer are read back.
pub proof fn lemma_groups_decode(
    buf: Seq<u8>,
    off: int,
    a: Seq<Seq<Arc<IfcBaseClass>>>,
    order: ByteOrder,
)
    requires
        0 <= off,
        buf.len() == off + groups_bytes(a, order).len(),
        buf.subrange(off, buf.len() as int) == groups_bytes(a, order),
        forall|i: int| 0 <= i < a.len() ==> (#[trigger] a[i]).len() <= usize::MAX,
    ensures
        groups_fit(buf, off, order),
        groups_ids(buf, off, order) == groups_ref_ids(a),
    decreases a.len(),
{
    lemma_usize_width();
    let w = usize_width();
    if a.len() == 0 {
        assert(groups_ref_ids(a) =~= Seq::<Seq<(bool, usize)>>::empty());
    } else {
        let g = a[0];
        let rest = a.drop_first();
        let c = groups_bytes(a, order);
        let cr = groups_bytes(rest, order);
        let ib = insts_bytes(g, order);
        assert(c == group_entry(g, order) + cr);
        lemma_usize_roundtrip(g.len() as usize, order);
        lemma_insts_bytes(g, order);
        assert(buf.subrange(off, off + w) =~= usize_bytes(g.len(), order)) by {
            assert(buf.subrange(off, off + w) =~= c.subrange(0, w));
        }
        assert(len_at(buf, off, order) == g.len());
        assert(group_end(buf, off, order) == off + w + ib.len());
        let ids = group_ids_at(buf, off, order);
        assert(buf.subrange(off + w, off + w + ib.len()) =~= ib) by {
            assert(buf.subrange(off + w, off + w + ib.len()) =~= c.subrange(w, w + ib.len()));
        }
        assert forall|j: int| 0 <= j < g.len() implies ids[j] == inst_ref(*g[j]) by {
            let p = (1 + w) * j;
            assert(0 <= p) by (nonlinear_arith)
                requires
                    0 <= j,
                    w >= 4,
                    p == (1 + w) * j,
            ;
            assert(p + (1 + w) <= (1 + w) * g.len()) by (nonlinear_arith)
                requires
                    0 <= j < g.len(),
                    w >= 4,
                    p == (1 + w) * j,
            ;
            lemma_usize_roundtrip(ref_id(*g[j]), order);
            assert(buf.subrange(off + w + p + 1, off + w + p + 1 + w) =~= ib.subrange(p, p + 1 + w).subrange(
                1,
                1 + w,
            ));
            assert(ib.subrange(p, p + 1 + w).subrange(1, 1 + w) =~= usize_bytes(ref_id(*g[j]) as nat, order));
            assert(buf[off + w + p] == ib.subrange(p, p + 1 + w)[0]);
        }
        assert(ids =~= inst_refs(g));
        assert forall|i: int| 0 <= i < rest.len() implies (#[trigger] rest[i]).len()
            <= usize::MAX by {
            assert(rest[i] == a[i + 1]);
        }
        assert(buf.subrange(off + w + ib.len(), buf.len() as int) =~= cr) by {
            assert(buf.subrange(off + w + ib.len(), buf.len() as int) =~= c.subrange(
                w + ib.len(),
                c.len() as int,
            ));
        }
        lemma_groups_decode(buf, off + w + ib.len(), rest, order);
        assert(groups_ref_ids(a) =~= seq![inst_refs(g)] + groups_ref_ids(rest));
    }
}

/// Decoding an encoded aggregate of aggregates of instances gives back the
/// references (entity or type, number) of the instances of each inner list,
/// in order.
pub proof fn law_agg_agg_inst_roundtrip(a: Seq<Seq<Arc<IfcBaseClass>>>, order: ByteOrder)
    requires
        forall|i: int| 0 <= i < a.len() ==> (#[trigger] a[i]).len() <= usize::MAX,
    ensures
        deserialize_agg_agg_inst_fits(spec_serialize_agg_agg_inst(a, order), order),
        spec_deserialize_agg_agg_inst(spec_serialize_agg_agg_inst(a, order), order) == Some(
            groups_ref_ids(a),
        ),
{
    let buf = spec_serialize_agg_agg_inst(a, order);
    assert(buf.subrange(1, buf.len() as int) =~= groups_bytes(a, order));
    lemma_groups_decode(buf, 1, a, order);
}

// ----------------------------------------------------------------------------
// Enumeration values
// ----------------------------------------------------------------------------
/// Position of the first declaration named `name`.
pub open spec fn first_named(decls: Seq<Declaration>, name: Seq<char>) -> Option<nat>
    decreases decls.len(),
{
    if decls.len() == 0 {
        None
    } else if decls[0].name@ == name {
        Some(0)
    } else {
        match first_named(decls.drop_first(), name) {
            Some(i) => Some(i + 1),
            None => None,
        }
    }
}

/// The declaration index stored for an enumeration: the position of the
/// first declaration with its name, or `0` when there is none.
pub open spec fn decl_index_of(decls: Seq<Declaration>, name: Seq<char>) -> nat {
    match first_named(decls, name) {
        Some(i) => i,
        None => 0,
    }
}

pub open spec fn spec_serialize_enumref(
    e: (Seq<char>, usize),
    decls: Seq<Declaration>,
    order: ByteOrder,
) -> Seq<u8> {
    seq![TAG_ENUMREF] + usize_bytes(decl_index_of(decls, e.0), order) + usize_bytes(
        e.1 as nat,
        order,
    )
}

/// Decoding an enumeration value reads two numbers after the tag.
pub open spec fn deserialize_enumref_fits(buf: Seq<u8>) -> bool {
    buf.len() == 0 || buf[0] != TAG_ENUMREF || buf.len() >= 1 + 2 * usize_width()
}

pub open spec fn spec_deserialize_enumref(
    buf: Seq<u8>,
    decls: Seq<Declaration>,
    order: ByteOrder,
) -> Option<(Seq<char>, usize)> {
    if buf.len() == 0 || buf[0] != TAG_ENUMREF {
        None
    } else {
        let di = len_at(buf, 1, order);
        let ei = len_at(buf, 1 + usize_width(), order);
        if di < decls.len() {
            Some((decls[di].name@, ei as usize))
        } else {
            None
        }
    }
}

pub proof fn lemma_first_named(decls: Seq<Declaration>, name: Seq<char>)
    ensures
        first_named(decls, name) matches Some(i) ==> i < decls.len() && decls[i as int].name@ == name,
        first_named(decls, name) is None ==> forall|k: int|
            0 <= k < decls.len() ==> (#[trigger] decls[k]).name@ != name,
    decreases decls.len(),
{
    if decls.len() > 0 {
        lemma_first_named(decls.drop_first(), name);
        if first_named(decls, name) is None {
            assert forall|k: int| 0 <= k < decls.len() implies (#[trigger] decls[k]).name@ != name by {
                if k > 0 {
                    assert(decls[k] == decls.drop_first()[k - 1]);
                }
            }
        }
    }
}

/// Index of the first declaration named `name`, or `0` when there is none.
fn position_of_name(decls: &Vec<Declaration>, name: &String) -> (r: usize)
    ensures
        r == decl_index_of(decls@, name@),
{
    let mut i: usize = 0;
    assert(decls@.subrange(0, decls@.len() as int) =~= decls@);
    while i < decls.len()
        invariant
            i <= decls@.len(),
            first_named(decls@, name@) == match first_named(decls@.subrange(i as int, decls@.len() as int), name@) {
                Some(k) => Some((k + i) as nat),
                None => None,
            },
        decreases decls@.len() - i,
    {
        let ghost tail = decls@.subrange(i as int, decls@.len() as int);
        assert(tail[0] == decls@[i as int]);
        if decls[i].name == *name {
            return i;
        }
        assert(tail.drop_first() =~= decls@.subrange(i + 1, decls@.len() as int));
        i = i + 1;
    }
    assert(decls@.subrange(i as int, decls@.len() as int) =~= Seq::<Declaration>::empty());
    0
}

pub fn serialize_enumref_in(v: &EnumerationReference, schema: &SchemaContainer, order: ByteOrder) -> (r: Vec<u8>)
    ensures
        r@ == spec_serialize_enumref(v@, schema.decls@, order),
{
    let mut r = Vec::new();
    r.push(TAG_ENUMREF);
    let name = v.value();
    let di = position_of_name(schema.declarations(), &name);
    push_usize(&mut r, di, order);
    push_usize(&mut r, v.index(), order);
    r
}

pub fn serialize_enumref(v: &EnumerationReference, schema: &SchemaContainer) -> (r: Vec<u8>)
    ensures
        in_some_order(|o: ByteOrder| spec_serialize_enumref(v@, schema.decls@, o), r@),
{
    serialize_enumref_in(v, schema, native_byte_order())
}

pub fn deserialize_enumref_in(schema: &SchemaContainer, buf: &[u8], order: ByteOrder) -> (r: Option<EnumerationReference>)
    requires
        deserialize_enumref_fits(buf@),
    ensures
        r is Some <==> spec_deserialize_enumref(buf@, schema.decls@, order) is Some,
        r matches Some(e) ==> e@ == spec_deserialize_enumref(buf@, schema.decls@, order)->0,
{
    if buf.len() == 0 || buf[0] != TAG_ENUMREF {
        return None;
    }
    let w = usize_byte_width();
    let decl_idx = read_usize_at(buf, 1, order);
    let enum_idx = read_usize_at(buf, 1 + w, order);
    let decls = schema.declarations();
    if decl_idx >= decls.len() {
        return None;
    }
    let decl = &decls[decl_idx];
    Some(EnumerationReference::new(decl.name.clone(), enum_idx))
}

/// Decodes an enumeration value in the native byte order, naming it after
/// the declaration of `schema` at the stored position.
pub fn deserialize_enumref(schema: &SchemaContainer, buf: &[u8]) -> (r: Option<EnumerationReference>)
    requires
        deserialize_enumref_fits(buf@),
    ensures
        in_some_order(
            |o: ByteOrder| spec_deserialize_enumref(buf@, schema.decls@, o),
            match r {
                Some(e) => Some(e@),
                None => None,
            },
        ),
{
    deserialize_enumref_in(schema, buf, native_byte_order())
}

/// An enumeration value whose name is declared in the schema survives
/// encoding and decoding in the same byte order.
pub proof fn law_enumref_roundtrip(e: (Seq<char>, usize), decls: Seq<Declaration>, order: ByteOrder)
    requires
        exists|k: int| 0 <= k < decls.len() && (#[trigger] decls[k]).name@ == e.0,
        decls.len() <= usize::MAX,
    ensures
        deserialize_enumref_fits(spec_serialize_enumref(e, decls, order)),
        spec_deserialize_enumref(spec_serialize_enumref(e, decls, order), decls, order) == Some(e),
{
    lemma_first_named(decls, e.0);
    let di = decl_index_of(decls, e.0);
    let buf = spec_serialize_enumref(e, decls, order);
    let w = usize_width();
    lemma_usize_roundtrip(di as usize, order);
    lemma_usize_roundtrip(e.1, order);
    assert(buf.subrange(1, 1 + w) =~= usize_bytes(di, order));
    assert(buf.subrange(1 + w, 1 + w + w) =~= usize_bytes(e.1 as nat, order));
}

// ----------------------------------------------------------------------------
// Keys of the attribute store
// ----------------------------------------------------------------------------
/// `h|` for the header section, `i|` for an entity instance, `t|` for a
/// type instance.
pub open spec fn key_prefix(is_header: bool, is_entity: bool) -> Seq<char> {
    if is_header {
        seq!['h', '|']
    } else if is_entity {
        seq!['i', '|']
    } else {
        seq!['t', '|']
    }
}

/// The key under which attribute `index` of an instance is stored.
pub open spec fn spec_make_key(is_header: bool, is_entity: bool, name_or_id: Seq<char>, index: u8) -> Seq<char> {
    key_prefix(is_header, is_entity) + name_or_id + seq!['|'] + decimal(index as nat)
}

pub fn make_key(is_header: bool, is_entity: bool, name_or_id: String, index: u8) -> (r: String)
    ensures
        r@ == spec_make_key(is_header, is_entity, name_or_id@, index),
{
    let mut out: Vec<char> = Vec::new();
    if is_header {
        out.push('h');
    } else if is_entity {
        out.push('i');
    } else {
        out.push('t');
    }
    out.push('|');
    push_str(&mut out, name_or_id.as_str());
    out.push('|');
    push_decimal(&mut out, index as u64);
    assert(out@ =~= spec_make_key(is_header, is_entity, name_or_id@, index));
    string_from_chars(&out)
}

/// The name under which an instance's attributes are stored: the name of
/// its declaration in the header section, its instance name in decimal
/// elsewhere.
pub open spec fn stored_name(decl: Declaration, instance_name: usize) -> Seq<char> {
    if decl.schema.is_header {
        decl.name@
    } else {
        decimal(instance_name as nat)
    }
}

/// The key under which attribute `index` of instance `instance_name` of
/// declaration `decl` is stored.
pub fn attribute_key(decl: &Declaration, instance_name: usize, index: u8) -> (r: String)
    ensures
        r@ == spec_make_key(decl.schema.is_header, decl.is_entity, stored_name(*decl, instance_name), index),
{
    let name_or_id = if decl.schema.is_header {
        decl.name.clone()
    } else {
        let mut digits: Vec<char> = Vec::new();
        push_decimal(&mut digits, instance_name as u64);
        string_from_chars(&digits)
    };
    proof {
        if decl.schema.is_header {
            assert(name_or_id@ == decl.name@);
        }
    }
    make_key(decl.schema.is_header, decl.is_entity, name_or_id, index)
}

/// The position in the alphabet of tags of the kind of a value read from
/// the store: that of its tag byte, or that of a blank when nothing or an
/// empty value was read.
pub open spec fn spec_stored_type_index(value: Option<Seq<u8>>) -> int {
    match value {
        Some(v) => if v.len() > 0 {
            v[0] - TAG_BLANK
        } else {
            0
        },
        None => 0,
    }
}

/// The position of the kind of a value read from the store (see
/// `spec_stored_type_index`); a tag byte before `A` is not a tag.
pub fn stored_type_index(value: Option<&[u8]>) -> (r: usize)
    requires
        value matches Some(v) ==> (v@.len() > 0 ==> v@[0] >= TAG_BLANK),
    ensures
        r == spec_stored_type_index(
            match value {
                Some(v) => Some(v@),
                None => None,
            },
        ),
{
    match value {
        Some(v) => {
            if v.len() > 0 {
                TypeEncoder::to_index(v[0])
            } else {
                TypeEncoder::to_index(TypeEncoder::encode_type_blank())
            }
        },
        None => TypeEncoder::to_index(TypeEncoder::encode_type_blank()),
    }
}

/// A value of each kind, once encoded, is recognized as that kind and as no
/// other.
pub proof fn law_stored_kind_recognized(
    b: bool,
    v: i32,
    t: TriBool,
    s: Seq<char>,
    x: IfcBaseClass,
    a: Seq<Arc<IfcBaseClass>>,
    aa: Seq<Seq<Arc<IfcBaseClass>>>,
    e: (Seq<char>, usize),
    decls: Seq<Declaration>,
    order: ByteOrder,
)
    ensures
        forall|k: ValueKind| #[trigger] spec_stored_has(Some(spec_ser_bool(b)), k) <==> k == ValueKind::Bool,
        forall|k: ValueKind| #[trigger] spec_stored_has(Some(spec_ser_i32(v, order)), k) <==> k == ValueKind::Int,
        forall|k: ValueKind|
            #[trigger] spec_stored_has(Some(spec_serialize_tribool(t)), k) <==> k == ValueKind::Tribool,
        forall|k: ValueKind| #[trigger] spec_stored_has(Some(spec_ser_string(s)), k) <==> k == ValueKind::String,
        forall|k: ValueKind|
            #[trigger] spec_stored_has(Some(spec_serialize_ifcptr(x, order)), k) <==> k == ValueKind::IfcPtr,
        forall|k: ValueKind|
            #[trigger] spec_stored_has(Some(spec_serialize_agg_inst(a, order)), k) <==> k == ValueKind::AggInst,
        forall|k: ValueKind|
            #[trigger] spec_stored_has(Some(spec_serialize_agg_agg_inst(aa, order)), k) <==> k
                == ValueKind::AggAggInst,
        forall|k: ValueKind|
            #[trigger] spec_stored_has(Some(spec_serialize_enumref(e, decls, order)), k) <==> k
                == ValueKind::EnumRef,
{
}

} // verus!
