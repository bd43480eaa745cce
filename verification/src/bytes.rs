//! Fixed-width integers as byte sequences in a chosen byte order.
use vstd::arithmetic::div_mod::lemma_mod_breakdown;
use vstd::prelude::*;

verus! {

/// Order in which the bytes of a fixed-width integer are laid out.
#[derive(Clone, Copy, Debug, PartialEq, Eq, Structural)]
pub enum ByteOrder {
    Little,
    Big,
}

/// `256` raised to the power `w`.
pub open spec fn pow256(w: nat) -> nat
    decreases w,
{
    if w == 0 {
        1
    } else {
        256 * pow256((w - 1) as nat)
    }
}

/// The `w` lowest base-256 digits of `n`, least significant first.
pub open spec fn le_digits(n: nat, w: nat) -> Seq<u8>
    decreases w,
{
    if w == 0 {
        seq![]
    } else {
        seq![(n % 256) as u8] + le_digits(n / 256, (w - 1) as nat)
    }
}

/// The number whose base-256 digits, least significant first, are `s`.
pub open spec fn le_value(s: Seq<u8>) -> nat
    decreases s.len(),
{
    if s.len() == 0 {
        0
    } else {
        s[0] as nat + 256 * le_value(s.drop_first())
    }
}

/// Least-significant-first digits rearranged into the given byte order.
pub open spec fn in_order(s: Seq<u8>, order: ByteOrder) -> Seq<u8> {
    match order {
        ByteOrder::Little => s,
        ByteOrder::Big => s.reverse(),
    }
}

/// The `w`-byte encoding of `n` in byte order `order`.
pub open spec fn uint_bytes(n: nat, w: nat, order: ByteOrder) -> Seq<u8> {
    in_order(le_digits(n, w), order)
}

/// The number that the bytes `s` encode in byte order `order`.
pub open spec fn uint_value(s: Seq<u8>, order: ByteOrder) -> nat {
    le_value(in_order(s, order))
}

/// Number of bytes of a `usize` on this target.
pub open spec fn usize_width() -> int {
    (usize::BITS / 8) as int
}

/// Two's complement reading of an `i32` as a 32-bit unsigned number.
pub open spec fn i32_as_nat(v: i32) -> nat {
    if v < 0 {
        (v + 4294967296) as nat
    } else {
        v as nat
    }
}

/// The `i32` whose two's complement pattern is the 32-bit number `u`.
pub open spec fn i32_of_nat(u: nat) -> i32 {
    if u >= 2147483648 {
        (u - 4294967296) as i32
    } else {
        u as i32
    }
}

/// The four bytes of `v` in byte order `order`.
pub open spec fn i32_bytes(v: i32, order: ByteOrder) -> Seq<u8> {
    uint_bytes(i32_as_nat(v), 4, order)
}

/// The `i32` that four bytes encode in byte order `order`.
pub open spec fn i32_from_bytes(s: Seq<u8>, order: ByteOrder) -> i32 {
    i32_of_nat(uint_value(s, order))
}

/// The bytes of a `usize` value in byte order `order`.
pub open spec fn usize_bytes(n: nat, order: ByteOrder) -> Seq<u8> {
    uint_bytes(n, usize_width() as nat, order)
}

pub proof fn lemma_pow256_positive(w: nat)
    ensures
        pow256(w) > 0,
    decreases w,
{
    if w > 0 {
        lemma_pow256_positive((w - 1) as nat);
    }
}

pub proof fn lemma_pow256_monotonic(a: nat, b: nat)
    requires
        a <= b,
    ensures
        pow256(a) <= pow256(b),
    decreases b,
{
    if a < b {
        lemma_pow256_monotonic(a, (b - 1) as nat);
        lemma_pow256_positive((b - 1) as nat);
    }
}

pub proof fn lemma_pow256_values()
    ensures
        pow256(4) == 4294967296,
        pow256(8) == 18446744073709551616,
{
    reveal_with_fuel(pow256, 9);
}

/// A `usize` is 4 or 8 bytes wide, and every `usize` fits in that many bytes.
pub proof fn lemma_usize_width()
    ensures
        usize_width() == 4 || usize_width() == 8,
        usize::MAX + 1 == pow256(usize_width() as nat),
        pow256(usize_width() as nat) <= pow256(8),
{
    lemma_pow256_values();
    if usize_width() == 4 {
        lemma_pow256_monotonic(4, 8);
    }
}

pub proof fn lemma_le_digits_len(n: nat, w: nat)
    ensures
        le_digits(n, w).len() == w,
    decreases w,
{
    if w > 0 {
        lemma_le_digits_len(n / 256, (w - 1) as nat);
    }
}

pub proof fn lemma_le_value_bound(s: Seq<u8>)
    ensures
        le_value(s) < pow256(s.len()),
    decreases s.len(),
{
    if s.len() > 0 {
        lemma_le_value_bound(s.drop_first());
    }
}

/// Reading back the digits of `n` gives `n` modulo `256^w`.
pub proof fn lemma_le_value_digits(n: nat, w: nat)
    ensures
        le_value(le_digits(n, w)) == n % pow256(w),
    decreases w,
{
    if w == 0 {
    } else {
        let d = le_digits(n, w);
        lemma_le_digits_len(n, w);
        assert(d.drop_first() =~= le_digits(n / 256, (w - 1) as nat));
        lemma_le_value_digits(n / 256, (w - 1) as nat);
        lemma_pow256_positive((w - 1) as nat);
        lemma_mod_breakdown(n as int, 256, pow256((w - 1) as nat) as int);
    }
}

pub proof fn lemma_in_order_involutive(s: Seq<u8>, order: ByteOrder)
    ensures
        in_order(in_order(s, order), order) =~= s,
{
}

pub proof fn lemma_uint_bytes_len(n: nat, w: nat, order: ByteOrder)
    ensures
        uint_bytes(n, w, order).len() == w,
{
    lemma_le_digits_len(n, w);
}

/// Decoding the encoding of a number that fits in `w` bytes gives the number back.
pub proof fn lemma_uint_roundtrip(n: nat, w: nat, order: ByteOrder)
    requires
        n < pow256(w),
    ensures
        uint_value(uint_bytes(n, w, order), order) == n,
{
    lemma_in_order_involutive(le_digits(n, w), order);
    lemma_le_value_digits(n, w);
    vstd::arithmetic::div_mod::lemma_small_mod(n, pow256(w));
}

pub proof fn lemma_uint_value_bound(s: Seq<u8>, order: ByteOrder)
    ensures
        uint_value(s, order) < pow256(s.len()),
{
    lemma_le_value_bound(in_order(s, order));
}

pub proof fn lemma_i32_roundtrip(v: i32, order: ByteOrder)
    ensures
        i32_bytes(v, order).len() == 4,
        i32_from_bytes(i32_bytes(v, order), order) == v,
{
    lemma_pow256_values();
    lemma_uint_bytes_len(i32_as_nat(v), 4, order);
    lemma_uint_roundtrip(i32_as_nat(v), 4, order);
}

pub proof fn lemma_usize_roundtrip(n: usize, order: ByteOrder)
    ensures
        usize_bytes(n as nat, order).len() == usize_width(),
        uint_value(usize_bytes(n as nat, order), order) == n,
{
    lemma_usize_width();
    lemma_uint_bytes_len(n as nat, usize_width() as nat, order);
    lemma_uint_roundtrip(n as nat, usize_width() as nat, order);
}

/// Appends the `w` lowest base-256 digits of `n`, least significant first.
fn push_le_digits(out: &mut Vec<u8>, n: u64, w: usize)
    ensures
        final(out)@ == old(out)@ + le_digits(n as nat, w as nat),
{
    let mut x = n;
    let mut i: usize = 0;
    while i < w
        invariant
            i <= w,
            out@ + le_digits(x as nat, (w - i) as nat) == old(out)@ + le_digits(n as nat, w as nat),
        decreases w - i,
    {
        let d = (x % 256) as u8;
        let ghost before = out@;
        assert(le_digits(x as nat, (w - i) as nat) =~= seq![d] + le_digits(
            (x / 256) as nat,
            (w - i - 1) as nat,
        ));
        out.push(d);
        assert(before + (seq![d] + le_digits((x / 256) as nat, (w - i - 1) as nat)) =~= out@
            + le_digits((x / 256) as nat, (w - i - 1) as nat));
        x = x / 256;
        i = i + 1;
    }
    assert(le_digits(x as nat, 0) =~= Seq::<u8>::empty());
    assert(out@ + Seq::<u8>::empty() =~= out@);
}

/// Appends the `w`-byte encoding of `n` in byte order `order`.
pub fn push_uint(out: &mut Vec<u8>, n: u64, w: usize, order: ByteOrder)
    ensures
        final(out)@ == old(out)@ + uint_bytes(n as nat, w as nat, order),
{
    match order {
        ByteOrder::Little => push_le_digits(out, n, w),
        ByteOrder::Big => {
            let mut tmp: Vec<u8> = Vec::new();
            push_le_digits(&mut tmp, n, w);
            assert(tmp@ =~= le_digits(n as nat, w as nat));
            let len = tmp.len();
            let mut j = len;
            while j > 0
                invariant
                    j <= len,
                    len == tmp@.len(),
                    out@ == old(out)@ + tmp@.subrange(j as int, len as int).reverse(),
                decreases j,
            {
                j = j - 1;
                let ghost before = out@;
                out.push(tmp[j]);
                assert(tmp@.subrange(j as int, len as int).reverse() =~= tmp@.subrange(
                    j + 1,
                    len as int,
                ).reverse() + seq![tmp@[j as int]]);
                assert(out@ =~= old(out)@ + tmp@.subrange(j as int, len as int).reverse());
            }
            assert(tmp@.subrange(0, len as int) =~= tmp@);
        },
    }
}

/// Reads `w` bytes at `off` as a number in byte order `order`.
pub fn read_uint(buf: &[u8], off: usize, w: usize, order: ByteOrder) -> (r: u64)
    requires
        w <= 8,
        off + w <= buf@.len(),
    ensures
        r == uint_value(buf@.subrange(off as int, off + w), order),
{
    proof {
        lemma_pow256_values();
        lemma_pow256_monotonic(w as nat, 8);
    }
    let ghost s = buf@.subrange(off as int, off + w);
    let blen = buf.len();
    match order {
        ByteOrder::Little => {
            let mut acc: u64 = 0;
            let mut k = w;
            while k > 0
                invariant
                    k <= w <= 8,
                    off + w <= buf@.len(),
                    blen == buf@.len(),
                    s == buf@.subrange(off as int, off + w),
                    pow256(w as nat) <= pow256(8),
                    pow256(8) == 18446744073709551616,
                    acc == le_value(s.subrange(k as int, w as int)),
                decreases k,
            {
                k = k - 1;
                let b = buf[off + k];
                let ghost rest = s.subrange(k + 1, w as int);
                assert(s.subrange(k as int, w as int).drop_first() =~= rest);
                assert(s.subrange(k as int, w as int)[0] == b);
                proof {
                    lemma_le_value_bound(rest);
                    lemma_pow256_monotonic((w - k) as nat, w as nat);
                }
                assert(256 * le_value(rest) + 256 <= pow256((w - k) as nat));
                acc = b as u64 + 256 * acc;
            }
            assert(s.subrange(0, w as int) =~= s);
            acc
        },
        ByteOrder::Big => {
            let mut acc: u64 = 0;
            let mut k: usize = 0;
            while k < w
                invariant
                    k <= w <= 8,
                    off + w <= buf@.len(),
                    blen == buf@.len(),
                    s == buf@.subrange(off as int, off + w),
                    pow256(w as nat) <= pow256(8),
                    pow256(8) == 18446744073709551616,
                    acc == le_value(s.subrange(0, k as int).reverse()),
                decreases w - k,
            {
                let b = buf[off + k];
                let ghost prev = s.subrange(0, k as int).reverse();
                let ghost next = s.subrange(0, k + 1).reverse();
                assert(next.drop_first() =~= prev);
                assert(next[0] == b);
                proof {
                    lemma_le_value_bound(prev);
                    lemma_pow256_monotonic((k + 1) as nat, w as nat);
                }
                assert(256 * le_value(prev) + 256 <= pow256((k + 1) as nat));
                acc = b as u64 + 256 * acc;
                k = k + 1;
            }
            assert(s.subrange(0, w as int) =~= s);
            acc
        },
    }
}

/// Number of bytes of a `usize` on this target.
pub fn usize_byte_width() -> (w: usize)
    ensures
        w == usize_width(),
        w == 4 || w == 8,
{
    proof {
        lemma_usize_width();
    }
    (usize::BITS / 8) as usize
}

/// Appends the four bytes of `v` in byte order `order`.
pub fn push_i32(out: &mut Vec<u8>, v: i32, order: ByteOrder)
    ensures
        final(out)@ == old(out)@ + i32_bytes(v, order),
{
    let u: u64 = if v < 0 {
        (v as i64 + 4294967296i64) as u64
    } else {
        v as u64
    };
    push_uint(out, u, 4, order);
}

/// Appends the bytes of the `usize` value `n` in byte order `order`.
pub fn push_usize(out: &mut Vec<u8>, n: usize, order: ByteOrder)
    ensures
        final(out)@ == old(out)@ + usize_bytes(n as nat, order),
{
    let w = usize_byte_width();
    push_uint(out, n as u64, w, order);
}

/// Reads the four bytes at `off` as an `i32` in byte order `order`.
pub fn read_i32(buf: &[u8], off: usize, order: ByteOrder) -> (r: i32)
    requires
        off + 4 <= buf@.len(),
    ensures
        r == i32_from_bytes(buf@.subrange(off as int, off + 4), order),
{
    let u = read_uint(buf, off, 4, order);
    proof {
        lemma_uint_value_bound(buf@.subrange(off as int, off + 4), order);
        lemma_pow256_values();
    }
    if u >= 2147483648 {
        (u as i64 - 4294967296i64) as i32
    } else {
        u as i32
    }
}

/// Reads the bytes of a `usize` at `off` in byte order `order`.
pub fn read_usize_at(buf: &[u8], off: usize, order: ByteOrder) -> (r: usize)
    requires
        off + usize_width() <= buf@.len(),
    ensures
        r == uint_value(buf@.subrange(off as int, off + usize_width()), order),
{
    let w = usize_byte_width();
    let u = read_uint(buf, off, w, order);
    proof {
        lemma_uint_value_bound(buf@.subrange(off as int, off + w), order);
        lemma_usize_width();
    }
    u as usize
}

/// `u16::from_ne_bytes` applied to the bytes `[1, 0]`: `1` where the target
/// lays out integers least significant byte first, `256` where it lays them
/// out most significant byte first.
#[verifier::external_body]
fn native_probe() -> (r: u16)
    ensures
        r == 1 || r == 256,
{
    u16::from_ne_bytes([1, 0])
}

/// The byte order in which this target lays out integers in memory.
pub fn native_byte_order() -> ByteOrder {
    if native_probe() == 1 {
        ByteOrder::Little
    } else {
        ByteOrder::Big
    }
}

} // verus!
