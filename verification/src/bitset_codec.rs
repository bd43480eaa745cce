//! Bit sets (held in a `bitvec::vec::BitVec`) and their byte encodings as
//! attribute values: a bit set is stored as its bits written `0` and `1`,
//! first bit first.
use crate::attribute_codec::{
    in_some_order, lemma_strings_decode, stored_count, len_at, str_entry, strings_at, strings_fit, strs_bytes,
};
use crate::bytes::{
    lemma_usize_roundtrip, native_byte_order, push_usize, read_usize_at, usize_byte_width,
    usize_bytes, usize_width, ByteOrder,
};
use crate::entity_data::{spec_stored_has, SizeVisitor, ValueKind, TAG_BITSET, TAG_VEC_BITSET};
use crate::seq_concat::lemma_concat_map_push;
use crate::text::{chars_of, copy_range, push_utf8, string_from_utf8};
use bitvec::vec::BitVec;
use vstd::prelude::*;
use vstd::utf8::{decode_utf8, encode_utf8, is_ascii_chars, is_ascii_chars_encode_utf8, valid_utf8};

verus! {

broadcast use {vstd::utf8::encode_utf8_valid_utf8, vstd::utf8::encode_utf8_decode_utf8};

/// A set of bits, held in a `bitvec::vec::BitVec`.
#[verifier::external_body]
pub struct Bits {
    inner: BitVec,
}

/// The bits held, first bit first.
pub uninterp spec fn bits_of(b: Bits) -> Seq<bool>;

/// Most bits a `BitVec` holds.
pub open spec fn max_bits() -> nat {
    (usize::MAX / 8) as nat
}

impl Bits {
    /// `BitVec::new`: no bits.
    #[verifier::external_body]
    fn empty() -> (r: Bits)
        ensures
            bits_of(r) == Seq::<bool>::empty(),
    {
        Bits { inner: BitVec::new() }
    }

    /// `BitVec::push`: appends a bit; it panics past its capacity in bits.
    #[verifier::external_body]
    fn push_bit(&mut self, v: bool)
        requires
            bits_of(*old(self)).len() < max_bits(),
        ensures
            bits_of(*final(self)) == bits_of(*old(self)).push(v),
    {
        self.inner.push(v)
    }

    /// `BitVec::len`: the number of bits, which is never past its capacity.
    #[verifier::external_body]
    fn count(&self) -> (r: usize)
        ensures
            r == bits_of(*self).len(),
            r <= max_bits(),
    {
        self.inner.len()
    }

    /// Indexing a `BitVec`: the bit at `i`.
    #[verifier::external_body]
    fn bit(&self, i: usize) -> (r: bool)
        requires
            i < bits_of(*self).len(),
        ensures
            r == bits_of(*self)[i as int],
    {
        self.inner[i]
    }

    /// The bit set holding `v`.
    pub fn from_bools(v: &[bool]) -> (r: Bits)
        requires
            v@.len() <= max_bits(),
        ensures
            bits_of(r) == v@,
    {
        let mut b = Bits::empty();
        let mut i: usize = 0;
        while i < v.len()
            invariant
                i <= v@.len() <= max_bits(),
                bits_of(b) == v@.subrange(0, i as int),
            decreases v@.len() - i,
        {
            b.push_bit(v[i]);
            i = i + 1;
            assert(bits_of(b) =~= v@.subrange(0, i as int));
        }
        assert(v@.subrange(0, i as int) =~= v@);
        b
    }

    /// The bits held, first bit first.
    pub fn to_bools(&self) -> (r: Vec<bool>)
        ensures
            r@ == bits_of(*self),
    {
        let n = self.count();
        let mut out: Vec<bool> = Vec::new();
        let mut i: usize = 0;
        while i < n
            invariant
                i <= n,
                n == bits_of(*self).len(),
                out@ == bits_of(*self).subrange(0, i as int),
            decreases n - i,
        {
            out.push(self.bit(i));
            i = i + 1;
            assert(out@ =~= bits_of(*self).subrange(0, i as int));
        }
        assert(bits_of(*self).subrange(0, i as int) =~= bits_of(*self));
        out
    }
}

impl SizeVisitor for Bits {
    fn size(&self) -> (r: i32)
        ensures
            r == -1,
    {
        -1
    }
}

impl SizeVisitor for Vec<Bits> {
    fn size(&self) -> (r: i32)
        ensures
            r == self@.len() as i32,
    {
        self.len() as i32
    }
}

/// The bits written as `0` and `1`.
pub open spec fn bits_text(b: Seq<bool>) -> Seq<char> {
    b.map_values(|x: bool| if x { '1' } else { '0' })
}

/// The bits that a text of `0` and `1` stands for: a character is a set bit
/// when it is `1`.
pub open spec fn text_bits(s: Seq<char>) -> Seq<bool> {
    s.map_values(|c: char| c == '1')
}

proof fn lemma_bits_text(b: Seq<bool>)
    ensures
        is_ascii_chars(bits_text(b)),
        encode_utf8(bits_text(b)).len() == b.len(),
        text_bits(decode_utf8(encode_utf8(bits_text(b)))) == b,
{
    is_ascii_chars_encode_utf8(bits_text(b));
    assert(text_bits(bits_text(b)) =~= b);
}

/// Appends the bits of `b` as the bytes of `0` and `1`.
fn push_bits_text(out: &mut Vec<u8>, b: &Bits)
    ensures
        final(out)@ == old(out)@ + encode_utf8(bits_text(bits_of(*b))),
{
    let n = b.count();
    let ghost start = old(out)@;
    let mut i: usize = 0;
    while i < n
        invariant
            i <= n,
            n == bits_of(*b).len(),
            out@ == start + bits_text(bits_of(*b)).subrange(0, i as int).map_values(|c: char| c as u8),
        decreases n - i,
    {
        if b.bit(i) {
            out.push(49u8);
        } else {
            out.push(48u8);
        }
        i = i + 1;
        assert(out@ =~= start + bits_text(bits_of(*b)).subrange(0, i as int).map_values(|c: char| c as u8));
    }
    proof {
        let t = bits_text(bits_of(*b));
        is_ascii_chars_encode_utf8(t);
        assert(t.subrange(0, i as int) =~= t);
        assert(t.map_values(|c: char| c as u8) =~= encode_utf8(t));
    }
}

pub open spec fn spec_serialize_bitset(b: Seq<bool>) -> Seq<u8> {
    seq![TAG_BITSET] + encode_utf8(bits_text(b))
}

pub open spec fn spec_deserialize_bitset(buf: Seq<u8>) -> Option<Seq<bool>> {
    if buf.len() == 0 || buf[0] != TAG_BITSET || !valid_utf8(buf.skip(1)) {
        None
    } else {
        Some(text_bits(decode_utf8(buf.skip(1))))
    }
}

/// The tag of a bit set, then its bits as the bytes `0` and `1`.
pub fn serialize_bitset(b: &Bits) -> (r: Vec<u8>)
    ensures
        r@ == spec_serialize_bitset(bits_of(*b)),
{
    let mut out: Vec<u8> = Vec::new();
    out.push(TAG_BITSET);
    push_bits_text(&mut out, b);
    out
}

/// The bits of a text of `0` and `1`.
fn bits_from_text(s: &str) -> (r: Bits)
    requires
        s@.len() <= max_bits(),
    ensures
        bits_of(r) == text_bits(s@),
{
    let cs = chars_of(s);
    let mut b = Bits::empty();
    let mut i: usize = 0;
    while i < cs.len()
        invariant
            i <= cs@.len() <= max_bits(),
            cs@ == s@,
            bits_of(b) == text_bits(cs@.subrange(0, i as int)),
        decreases cs@.len() - i,
    {
        b.push_bit(cs[i] == '1');
        i = i + 1;
        assert(bits_of(b) =~= text_bits(cs@.subrange(0, i as int)));
    }
    assert(cs@.subrange(0, i as int) =~= cs@);
    b
}

proof fn lemma_decoded_len(b: Seq<u8>)
    requires
        valid_utf8(b),
    ensures
        decode_utf8(b).len() <= b.len(),
{
    vstd::utf8::encode_utf8_decode_utf8(decode_utf8(b));
    vstd::utf8::decode_utf8_encode_utf8(b);
    lemma_encode_len(decode_utf8(b));
}

proof fn lemma_encode_len(s: Seq<char>)
    ensures
        s.len() <= encode_utf8(s).len(),
    decreases s.len(),
{
    if s.len() > 0 {
        lemma_encode_len(s.drop_first());
    }
}

/// Decodes a bit set; `None` when the tag differs or the bytes after it are
/// not valid UTF-8. A character other than `1` is a clear bit.
pub fn deserialize_bitset(buf: &[u8]) -> (r: Option<Bits>)
    requires
        buf@.len() <= max_bits(),
    ensures
        match spec_deserialize_bitset(buf@) {
            Some(v) => r matches Some(b) && bits_of(b) == v,
            None => r is None,
        },
{
    if buf.len() == 0 || buf[0] != TAG_BITSET {
        return None;
    }
    let rest = copy_range(buf, 1, buf.len());
    assert(rest@ =~= buf@.skip(1));
    match string_from_utf8(rest) {
        None => None,
        Some(s) => {
            proof {
                lemma_decoded_len(buf@.skip(1));
            }
            Some(bits_from_text(s.as_str()))
        },
    }
}

// ----------------------------------------------------------------------------
// Lists of bit sets
// ----------------------------------------------------------------------------
/// The texts of a list of bit sets.
pub open spec fn bits_texts(v: Seq<Seq<bool>>) -> Seq<Seq<char>> {
    v.map_values(|b: Seq<bool>| bits_text(b))
}

/// The bits held by each of a list of bit sets.
pub open spec fn bits_list(v: Seq<Bits>) -> Seq<Seq<bool>> {
    v.map_values(|b: Bits| bits_of(b))
}

pub open spec fn spec_ser_vec_bitset(v: Seq<Seq<bool>>, order: ByteOrder) -> Seq<u8> {
    seq![TAG_VEC_BITSET] + usize_bytes(v.len(), order) + strs_bytes(bits_texts(v), order)
}

pub open spec fn de_vec_bitset_fits(buf: Seq<u8>, order: ByteOrder) -> bool {
    buf.len() == 0 || buf[0] != TAG_VEC_BITSET || (1 + usize_width() <= buf.len() && strings_fit(
        buf,
        1 + usize_width(),
        stored_count(buf, order),
        order,
    ))
}

pub open spec fn spec_de_vec_bitset(buf: Seq<u8>, order: ByteOrder) -> Option<Seq<Seq<bool>>> {
    if buf.len() == 0 || buf[0] != TAG_VEC_BITSET {
        None
    } else {
        match strings_at(buf, 1 + usize_width(), stored_count(buf, order), order) {
            Some(texts) => Some(texts.map_values(|s: Seq<char>| text_bits(s))),
            None => None,
        }
    }
}

/// The tag, the number of bit sets, then each bit set's length and its
/// bits as `0` and `1`; numbers in byte order `order`.
pub fn ser_vec_bitset_in(v: &[Bits], order: ByteOrder) -> (r: Vec<u8>)
    ensures
        r@ == spec_ser_vec_bitset(bits_list(v@), order),
{
    let mut r = Vec::new();
    r.push(TAG_VEC_BITSET);
    push_usize(&mut r, v.len(), order);
    let ghost texts = bits_texts(bits_list(v@));
    let ghost start = r@;
    let mut i: usize = 0;
    while i < v.len()
        invariant
            i <= v@.len(),
            texts == bits_texts(bits_list(v@)),
            start == seq![TAG_VEC_BITSET] + usize_bytes(v@.len() as nat, order),
            r@ == start + strs_bytes(texts.subrange(0, i as int), order),
        decreases v@.len() - i,
    {
        let n = v[i].count();
        proof {
            lemma_bits_text(bits_of(v@[i as int]));
            lemma_concat_map_push(texts.subrange(0, i as int), texts[i as int], |s: Seq<char>| str_entry(s, order));
            assert(texts.subrange(0, i + 1) =~= texts.subrange(0, i as int).push(texts[i as int]));
        }
        push_usize(&mut r, n, order);
        push_bits_text(&mut r, &v[i]);
        i = i + 1;
        assert(r@ =~= start + strs_bytes(texts.subrange(0, i as int), order));
    }
    assert(texts.subrange(0, i as int) =~= texts);
    r
}

pub fn ser_vec_bitset(v: &[Bits]) -> (r: Vec<u8>)
    ensures
        in_some_order(|o: ByteOrder| spec_ser_vec_bitset(bits_list(v@), o), r@),
{
    ser_vec_bitset_in(v, native_byte_order())
}

/// Decodes a list of bit sets in byte order `order`.
pub fn de_vec_bitset_in(buf: &[u8], order: ByteOrder) -> (r: Option<Vec<Bits>>)
    requires
        de_vec_bitset_fits(buf@, order),
        buf@.len() <= max_bits(),
    ensures
        match spec_de_vec_bitset(buf@, order) {
            Some(v) => r matches Some(bs) && bits_list(bs@) == v,
            None => r is None,
        },
{
    if buf.len() == 0 || buf[0] != TAG_VEC_BITSET {
        return None;
    }
    let n = read_usize_at(buf, 1, order);
    let w = usize_byte_width();
    let ghost whole = strings_at(buf@, 1 + w, n as nat, order);
    let mut out: Vec<Bits> = Vec::new();
    let ghost texts: Seq<Seq<char>> = Seq::empty();
    let mut off = 1 + w;
    let mut k: usize = 0;
    let blen = buf.len();
    while k < n
        invariant
            blen == buf@.len(),
            blen <= max_bits(),
            buf@[0] == TAG_VEC_BITSET,
            n == stored_count(buf@, order),
            whole == strings_at(buf@, 1 + usize_width(), n as nat, order),
            k <= n,
            w == usize_width(),
            strings_fit(buf@, off as int, (n - k) as nat, order),
            bits_list(out@) == texts.map_values(|s: Seq<char>| text_bits(s)),
            whole == match strings_at(buf@, off as int, (n - k) as nat, order) {
                Some(rest) => Some(texts + rest),
                None => None,
            },
        decreases n - k,
    {
        let sl = read_usize_at(buf, off, order);
        let bytes = copy_range(buf, off + w, off + w + sl);
        match string_from_utf8(bytes) {
            None => {
                assert(!valid_utf8(buf@.subrange(off + w, off + w + sl)));
                assert(strings_at(buf@, off as int, (n - k) as nat, order) is None);
                return None;
            },
            Some(s) => {
                let ghost next = strings_at(buf@, off + w + sl, (n - k - 1) as nat, order);
                proof {
                    lemma_decoded_len(buf@.subrange(off + w, off + w + sl));
                }
                let b = bits_from_text(s.as_str());
                let ghost before = out@;
                out.push(b);
                proof {
                    assert(bits_list(out@) =~= bits_list(before).push(text_bits(s@)));
                    assert((texts.push(s@)).map_values(|t: Seq<char>| text_bits(t)) =~= texts.map_values(
                        |t: Seq<char>| text_bits(t),
                    ).push(text_bits(s@)));
                    match next {
                        Some(rest) => {
                            assert(texts + (seq![s@] + rest) =~= texts.push(s@) + rest);
                        },
                        None => {},
                    }
                    texts = texts.push(s@);
                }
                off = off + w + sl;
                k = k + 1;
            },
        }
    }
    assert(texts + Seq::<Seq<char>>::empty() =~= texts);
    Some(out)
}

/// Checks that decoding a list of bit sets stays inside the buffer.
pub fn check_vec_bitset_fits(buf: &[u8], order: ByteOrder) -> (r: bool)
    ensures
        r == de_vec_bitset_fits(buf@, order),
{
    if buf.len() == 0 || buf[0] != TAG_VEC_BITSET {
        return true;
    }
    let w = usize_byte_width();
    if buf.len() < 1 + w {
        return false;
    }
    let n = read_usize_at(buf, 1, order);
    let mut off = 1 + w;
    let mut k: usize = 0;
    while k < n
        invariant
            k <= n,
            w == usize_width(),
            1 + w <= off <= buf@.len(),
            de_vec_bitset_fits(buf@, order) == strings_fit(buf@, off as int, (n - k) as nat, order),
        decreases n - k,
    {
        if buf.len() - off < w {
            return false;
        }
        let sl = read_usize_at(buf, off, order);
        if buf.len() - off - w < sl {
            return false;
        }
        let bytes = copy_range(buf, off + w, off + w + sl);
        if string_from_utf8(bytes).is_none() {
            return true;
        }
        off = off + w + sl;
        k = k + 1;
    }
    true
}

/// Decodes a list of bit sets in the native byte order; `None` when the tag
/// differs, an entry is not valid UTF-8, or a stored length runs past the
/// end of the buffer.
pub fn de_vec_bitset(buf: &[u8]) -> (r: Option<Vec<Bits>>)
    requires
        buf@.len() <= max_bits(),
    ensures
        in_some_order(
            |o: ByteOrder|
                if de_vec_bitset_fits(buf@, o) {
                    spec_de_vec_bitset(buf@, o)
                } else {
                    None
                },
            match r {
                Some(v) => Some(bits_list(v@)),
                None => None,
            },
        ),
{
    let order = native_byte_order();
    if !check_vec_bitset_fits(buf, order) {
        return None;
    }
    de_vec_bitset_in(buf, order)
}

/// A bit set survives encoding and decoding.
pub proof fn law_bitset_roundtrip(b: Seq<bool>)
    ensures
        spec_deserialize_bitset(spec_serialize_bitset(b)) == Some(b),
{
    let buf = spec_serialize_bitset(b);
    lemma_bits_text(b);
    assert(buf.skip(1) =~= encode_utf8(bits_text(b)));
}

/// A list of bit sets survives encoding and decoding in the same byte order.
pub proof fn law_vec_bitset_roundtrip(v: Seq<Seq<bool>>, order: ByteOrder)
    requires
        v.len() <= usize::MAX,
        forall|i: int| 0 <= i < v.len() ==> (#[trigger] v[i]).len() <= usize::MAX,
    ensures
        de_vec_bitset_fits(spec_ser_vec_bitset(v, order), order),
        spec_de_vec_bitset(spec_ser_vec_bitset(v, order), order) == Some(v),
{
    let buf = spec_ser_vec_bitset(v, order);
    let t = bits_texts(v);
    let w = usize_width();
    lemma_usize_roundtrip(v.len() as usize, order);
    assert(buf.subrange(1, 1 + w) =~= usize_bytes(v.len(), order));
    let c = strs_bytes(t, order);
    assert(buf.subrange(1 + w, 1 + w + c.len()) =~= c);
    assert forall|i: int| 0 <= i < t.len() implies encode_utf8(#[trigger] t[i]).len() <= usize::MAX by {
        lemma_bits_text(v[i]);
    }
    lemma_strings_decode(buf, 1 + w, t, order);
    assert forall|i: int| 0 <= i < v.len() implies text_bits(t[i]) == #[trigger] v[i] by {
        lemma_bits_text(v[i]);
        is_ascii_chars_encode_utf8(bits_text(v[i]));
        assert(text_bits(bits_text(v[i])) =~= v[i]);
    }
    assert(t.map_values(|s: Seq<char>| text_bits(s)) =~= v);
}

/// A bit set, once encoded, is recognized as a bit set and as nothing else.
pub proof fn law_stored_bitset_recognized(b: Seq<bool>)
    ensures
        forall|k: ValueKind| #[trigger] spec_stored_has(Some(spec_serialize_bitset(b)), k) <==> k == ValueKind::Bitset,
{
}

} // verus!
