//! The mathematical model of a bit stream.
//!
//! A byte string stands for the sequence of its bits, most significant
//! bit first ([`bits_of`]). What a reader returns is a function of that
//! sequence and a position in it (the `*_at` functions); what a writer
//! does is a function from the bits so far to the bits after
//! (the `put_*` functions). Reading past the end yields zeros.
//!
//! The `law_*` lemmas say that the two are inverse: writing what was
//! read gives back the bits that were read, and reading what was
//! written gives back the value.
use crate::Fault;
use crate::layout::cursor;
use vstd::arithmetic::div_mod::lemma_div_denominator;
use vstd::arithmetic::power2::{lemma2_to64, lemma_pow2_pos, lemma_pow2_unfold, pow2};
use vstd::prelude::*;

verus! {

/// Positions stop counting here, far beyond the bits of any byte string.
pub const POS_CAP: u128 = 0x1000_0000_0000_0000_0000_0000_0000_0000;

/// What reading a structure gives: its value and the position behind it,
/// or the class of the error.
pub type Read<T> = Result<(T, nat), Fault>;

// ─────────────────────────── Positions ──────────────────────────────────────

/// The position `n` bits behind `p`.
#[verifier::opaque]
pub open spec fn adv(p: nat, n: nat) -> nat {
    if p + n <= POS_CAP {
        p + n
    } else {
        POS_CAP as nat
    }
}

/// The position behind an `n`-bit field that is coded only if `c`.
#[verifier::opaque]
pub open spec fn adv_if(p: nat, n: nat, c: bool) -> nat {
    if c {
        adv(p, n)
    } else {
        p
    }
}

/// The first `p` bits of `s`.
#[verifier::opaque]
pub open spec fn upto(s: Seq<bool>, p: nat) -> Seq<bool> {
    s.take(p as int)
}

/// Position `p` lies within `s`.
#[verifier::opaque]
pub open spec fn within(s: Seq<bool>, p: nat) -> bool {
    p <= s.len() < POS_CAP
}

/// `a` is an initial part of `s`.
#[verifier::opaque]
pub open spec fn pre(a: Seq<bool>, s: Seq<bool>) -> bool {
    a.len() <= s.len() < POS_CAP && s.take(a.len() as int) == a
}

// ─────────────────────────── Models of containers ───────────────────────────

/// The models of a list of structures.
pub open spec fn seq_view<V: View>(xs: Seq<V>) -> Seq<V::V> {
    Seq::new(xs.len(), |i: int| xs[i]@)
}

/// The model of an optional structure.
pub open spec fn opt_view<V: View>(x: Option<V>) -> Option<V::V> {
    match x {
        Some(v) => Some(v@),
        None => None,
    }
}

pub proof fn lemma_seq_view_push<V: View>(xs: Seq<V>, x: V)
    ensures
        seq_view(xs.push(x)) == seq_view(xs).push(x@),
{
    assert(seq_view(xs.push(x)) =~= seq_view(xs).push(x@));
}

/// A structure that is present.
pub open spec fn read_some<T>(x: Read<T>) -> Read<Option<T>> {
    match x {
        Ok((v, p)) => Ok((Some(v), p)),
        Err(f) => Err(f),
    }
}

// ─────────────────────────── Fixed-width fields ─────────────────────────────

/// The bit at position `i`, 0 past the end.
pub open spec fn bit_val(s: Seq<bool>, i: nat) -> nat {
    if i < s.len() && s[i as int] {
        1
    } else {
        0
    }
}

/// The value of the `n` bits at position `p`, most significant bit first.
#[verifier::opaque]
pub open spec fn uval(s: Seq<bool>, p: nat, n: nat) -> nat
    decreases n,
{
    if n == 0 {
        0
    } else {
        2 * uval(s, p, (n - 1) as nat) + bit_val(s, (p + n - 1) as nat)
    }
}

/// `a` followed by the low `n` bits of `v`, most significant bit first.
#[verifier::opaque]
pub open spec fn put_u(a: Seq<bool>, v: nat, n: nat) -> Seq<bool>
    decreases n,
{
    if n == 0 {
        a
    } else {
        put_u(a, v / 2, (n - 1) as nat).push(v % 2 == 1)
    }
}

/// `v` can be written in `n` bits.
pub open spec fn fits(v: nat, n: nat) -> bool {
    v < pow2(n)
}

/// u(n) with a result of at most 32 bits.
#[verifier::opaque]
pub open spec fn u32_at(s: Seq<bool>, p: nat, n: nat) -> u32 {
    uval(s, p, n) as u32
}

/// u(n) with a result of at most 16 bits.
#[verifier::opaque]
pub open spec fn u16_at(s: Seq<bool>, p: nat, n: nat) -> u16 {
    uval(s, p, n) as u16
}

/// u(n) with a result of at most 8 bits.
#[verifier::opaque]
pub open spec fn u8_at(s: Seq<bool>, p: nat, n: nat) -> u8 {
    uval(s, p, n) as u8
}

/// u(1) as a truth value.
#[verifier::opaque]
pub open spec fn flag_at(s: Seq<bool>, p: nat) -> bool {
    bit_val(s, p) == 1
}

/// u(n) that is coded only if `c`, and is `d` otherwise.
#[verifier::opaque]
pub open spec fn u32_if(s: Seq<bool>, p: nat, n: nat, c: bool, d: u32) -> u32 {
    if c {
        u32_at(s, p, n)
    } else {
        d
    }
}

/// u(n) that is coded only if `c`, and is `d` otherwise.
#[verifier::opaque]
pub open spec fn u16_if(s: Seq<bool>, p: nat, n: nat, c: bool, d: u16) -> u16 {
    if c {
        u16_at(s, p, n)
    } else {
        d
    }
}

/// u(n) that is coded only if `c`, and is `d` otherwise.
#[verifier::opaque]
pub open spec fn u8_if(s: Seq<bool>, p: nat, n: nat, c: bool, d: u8) -> u8 {
    if c {
        u8_at(s, p, n)
    } else {
        d
    }
}

/// u(1) that is coded only if `c`, and is `d` otherwise.
#[verifier::opaque]
pub open spec fn flag_if(s: Seq<bool>, p: nat, c: bool, d: bool) -> bool {
    if c {
        flag_at(s, p)
    } else {
        d
    }
}

/// [`put_u`] for a field that is coded only if `c`.
#[verifier::opaque]
pub open spec fn put_u_if(a: Seq<bool>, v: nat, n: nat, c: bool) -> Seq<bool> {
    if c {
        put_u(a, v, n)
    } else {
        a
    }
}

/// `a` followed by one bit, set if `v` is not zero.
#[verifier::opaque]
pub open spec fn put_bit(a: Seq<bool>, v: nat) -> Seq<bool> {
    a.push(v != 0)
}

/// [`put_bit`] for a field that is coded only if `c`.
#[verifier::opaque]
pub open spec fn put_bit_if(a: Seq<bool>, v: nat, c: bool) -> Seq<bool> {
    if c {
        put_bit(a, v)
    } else {
        a
    }
}

/// `a` followed by the bit `b`.
#[verifier::opaque]
pub open spec fn put_flag(a: Seq<bool>, b: bool) -> Seq<bool> {
    a.push(b)
}

/// [`put_flag`] for a field that is coded only if `c`.
#[verifier::opaque]
pub open spec fn put_flag_if(a: Seq<bool>, b: bool, c: bool) -> Seq<bool> {
    if c {
        put_flag(a, b)
    } else {
        a
    }
}

// ─────────────────────────── Exp-Golomb codes ───────────────────────────────

/// The number of zero bits at position `p`, counted up to `max`.
pub open spec fn zeros_at(s: Seq<bool>, p: nat, max: nat) -> nat
    decreases max,
{
    if max == 0 || bit_val(s, p) == 1 {
        0
    } else {
        1 + zeros_at(s, p + 1, (max - 1) as nat)
    }
}

/// The number of binary digits of `v` behind the leading one.
pub open spec fn log2(v: nat) -> nat
    decreases v,
{
    if v <= 1 {
        0
    } else {
        1 + log2(v / 2)
    }
}

/// ue(v): `z` zero bits and then `z + 1` bits that hold the value plus one.
/// A code with 32 or more leading zeros is an error.
#[verifier::opaque]
pub open spec fn ue_at(s: Seq<bool>, p: nat) -> Read<u32> {
    let z = zeros_at(s, p, 32);
    if z >= 32 {
        Err(Fault::Invalid)
    } else {
        Ok(((uval(s, p, 2 * z + 1) - 1) as u32, adv(p, 2 * z + 1)))
    }
}

/// `v` can be coded as ue(v): only the largest `u32` cannot.
pub open spec fn ue_fits(v: nat) -> bool {
    v < 0xffff_ffff
}

/// `a` followed by the ue(v) code of `v`.
#[verifier::opaque]
pub open spec fn put_ue(a: Seq<bool>, v: nat) -> Seq<bool> {
    put_u(a, v + 1, 2 * log2(v + 1) + 1)
}

/// The signed value that se(v) assigns to the code number `k`.
pub open spec fn se_of(k: u32) -> i32 {
    if k % 2 == 1 {
        ((k + 1) / 2) as i32
    } else {
        (-((k / 2) as int)) as i32
    }
}

/// The code number of the signed value `v`.
pub open spec fn se_code(v: int) -> nat {
    if v > 0 {
        (2 * v - 1) as nat
    } else {
        (-2 * v) as nat
    }
}

/// `v` can be coded as se(v).
pub open spec fn se_fits(v: int) -> bool {
    -0x8000_0000 < v < 0x8000_0000
}

/// se(v).
#[verifier::opaque]
pub open spec fn se_at(s: Seq<bool>, p: nat) -> Read<i32> {
    match ue_at(s, p) {
        Ok((k, q)) => Ok((se_of(k), q)),
        Err(f) => Err(f),
    }
}

/// `a` followed by the se(v) code of `v`.
#[verifier::opaque]
pub open spec fn put_se(a: Seq<bool>, v: int) -> Seq<bool> {
    put_ue(a, se_code(v))
}

/// ue(v) that is coded only if `c`, and is `d` otherwise.
#[verifier::opaque]
pub open spec fn ue_if(s: Seq<bool>, p: nat, c: bool, d: u32) -> Read<u32> {
    if c {
        ue_at(s, p)
    } else {
        Ok((d, p))
    }
}

/// se(v) that is coded only if `c`, and is `d` otherwise.
#[verifier::opaque]
pub open spec fn se_if(s: Seq<bool>, p: nat, c: bool, d: i32) -> Read<i32> {
    if c {
        se_at(s, p)
    } else {
        Ok((d, p))
    }
}

/// [`put_ue`] for a field that is coded only if `c`.
#[verifier::opaque]
pub open spec fn put_ue_if(a: Seq<bool>, v: nat, c: bool) -> Seq<bool> {
    if c {
        put_ue(a, v)
    } else {
        a
    }
}

/// [`put_se`] for a field that is coded only if `c`.
#[verifier::opaque]
pub open spec fn put_se_if(a: Seq<bool>, v: int, c: bool) -> Seq<bool> {
    if c {
        put_se(a, v)
    } else {
        a
    }
}

// ─────────────────────────── Bytes ──────────────────────────────────────────

/// The bits of a byte string.
pub open spec fn bits_of(b: Seq<u8>) -> Seq<bool>
    decreases b.len(),
{
    if b.len() == 0 {
        Seq::empty()
    } else {
        put_u(bits_of(b.drop_last()), b.last() as nat, 8)
    }
}

/// The number of bits from position `p` to the next byte boundary.
pub open spec fn pad_len(p: nat) -> nat {
    ((8 - p % 8) % 8) as nat
}

/// `a`, filled up with zero bits to a byte boundary.
pub open spec fn pad(a: Seq<bool>) -> Seq<bool> {
    put_u(a, 0, pad_len(a.len()))
}

/// [`pad`] as a syntax element of its own.
#[verifier::opaque]
pub open spec fn put_align(a: Seq<bool>) -> Seq<bool> {
    pad(a)
}

/// [`put_align`] if `c`.
#[verifier::opaque]
pub open spec fn put_align_if(a: Seq<bool>, c: bool) -> Seq<bool> {
    if c {
        put_align(a)
    } else {
        a
    }
}

/// Alignment bits at position `p`: all bits up to the next byte boundary
/// must be zero.
#[verifier::opaque]
pub open spec fn align_at(s: Seq<bool>, p: nat) -> Result<nat, Fault> {
    if uval(s, p, pad_len(p)) == 0 {
        Ok(adv(p, pad_len(p)))
    } else {
        Err(Fault::Invalid)
    }
}

/// [`align_at`] if `c`.
#[verifier::opaque]
pub open spec fn align_if(s: Seq<bool>, p: nat, c: bool) -> Result<nat, Fault> {
    if c {
        align_at(s, p)
    } else {
        Ok(p)
    }
}

/// `a` followed by rbsp_trailing_bits(): a one bit, and zero bits up to a
/// byte boundary.
pub open spec fn put_trailing(a: Seq<bool>) -> Seq<bool> {
    pad(a.push(true))
}

/// rbsp_trailing_bits() at position `p`: all that is left must be the stop
/// bit and its padding.
pub open spec fn trailing_at(s: Seq<bool>, p: nat) -> Result<nat, Fault> {
    if p >= s.len() {
        Err(Fault::End)
    } else if s == put_trailing(upto(s, p)) {
        Ok(s.len())
    } else {
        Err(Fault::Invalid)
    }
}

/// more_rbsp_data(): a set bit follows behind position `p`, so what stands
/// at `p` is not yet rbsp_trailing_bits().
pub open spec fn more_data(s: Seq<bool>, p: nat) -> bool {
    exists|i: int| p < i < s.len() && #[trigger] s[i]
}

/// The number of bits from position `p` on.
pub open spec fn bits_left(s: Seq<bool>, p: nat) -> int {
    if p < s.len() {
        s.len() - p
    } else {
        0
    }
}

// ─────────────────────────── Repetition ─────────────────────────────────────

/// `n` items read one behind the other; `f` reads an item from the items
/// before it and a position.
pub open spec fn rep_at<T>(f: spec_fn(Seq<T>, nat) -> Read<T>, p: nat, n: nat) -> Read<Seq<T>>
    decreases n,
{
    if n == 0 {
        Ok((Seq::empty(), p))
    } else {
        match rep_at(f, p, (n - 1) as nat) {
            Err(e) => Err(e),
            Ok((done, q)) => match f(done, q) {
                Err(e) => Err(e),
                Ok((x, r)) => Ok((done.push(x), r)),
            },
        }
    }
}

/// Items written one behind the other; `g` writes an item behind the bits so
/// far, given the items before it.
pub open spec fn put_rep<T>(
    g: spec_fn(Seq<bool>, Seq<T>, T) -> Seq<bool>,
    a: Seq<bool>,
    xs: Seq<T>,
) -> Seq<bool>
    decreases xs.len(),
{
    if xs.len() == 0 {
        a
    } else {
        g(put_rep(g, a, xs.drop_last()), xs.drop_last(), xs.last())
    }
}

/// Every item of `xs` is allowed by `ok` behind the items before it.
pub open spec fn all_ok<T>(ok: spec_fn(Seq<T>, T) -> bool, xs: Seq<T>) -> bool {
    forall|i: int| 0 <= i < xs.len() ==> ok(#[trigger] xs.take(i), xs[i])
}

// ─────────────────────────── Lemmas: bits and values ────────────────────────

pub proof fn lemma_put_u_shape(a: Seq<bool>, v: nat, n: nat)
    ensures
        put_u(a, v, n).len() == a.len() + n,
        put_u(a, v, n).take(a.len() as int) == a,
        forall|i: int| 0 <= i < a.len() ==> put_u(a, v, n)[i] == #[trigger] a[i],
    decreases n,
{
    reveal(put_u);
    if n > 0 {
        lemma_put_u_shape(a, v / 2, (n - 1) as nat);
    }
    assert(put_u(a, v, n).take(a.len() as int) =~= a);
}

pub proof fn lemma_uval_bound(s: Seq<bool>, p: nat, n: nat)
    ensures
        uval(s, p, n) < pow2(n),
    decreases n,
{
    reveal(uval);
    if n > 0 {
        lemma_uval_bound(s, p, (n - 1) as nat);
        lemma_pow2_unfold(n);
    } else {
        lemma_pow2_pos(0);
    }
}

/// A value splits into the values of its first and its last digits.
pub proof fn lemma_uval_split(s: Seq<bool>, p: nat, m: nat, n: nat)
    ensures
        uval(s, p, m + n) == uval(s, p, m) * pow2(n) + uval(s, p + m, n),
    decreases n,
{
    reveal(uval);
    if n == 0 {
        lemma2_to64();
        assert(uval(s, p + m, 0) == 0);
    } else {
        let k = (n - 1) as nat;
        lemma_uval_split(s, p, m, k);
        lemma_pow2_unfold(n);
        assert((m + n - 1) as nat == m + k);
        assert((p + (m + n) - 1) as nat == ((p + m) + n - 1) as nat);
        assert(uval(s, p, m) * (2 * pow2(k)) == 2 * (uval(s, p, m) * pow2(k))) by (nonlinear_arith);
    }
}

pub proof fn lemma_put_uval(s: Seq<bool>, p: nat, n: nat)
    requires
        p + n <= s.len(),
    ensures
        put_u(s.take(p as int), uval(s, p, n), n) == s.take((p + n) as int),
    decreases n,
{
    reveal(uval);
    reveal(put_u);
    if n > 0 {
        let k = (n - 1) as nat;
        lemma_put_uval(s, p, k);
        assert(uval(s, p, n) / 2 == uval(s, p, k));
        assert(s.take((p + n) as int) =~= s.take((p + k) as int).push(s[(p + k) as int]));
    }
}

pub proof fn lemma_uval_put(s: Seq<bool>, a: Seq<bool>, v: nat, n: nat)
    requires
        fits(v, n),
        a.len() + n <= s.len(),
        s.take((a.len() + n) as int) == put_u(a, v, n),
    ensures
        uval(s, a.len(), n) == v,
    decreases n,
{
    reveal(uval);
    reveal(put_u);
    if n == 0 {
        lemma2_to64();
    } else {
        let k = (n - 1) as nat;
        lemma_pow2_unfold(n);
        lemma_put_u_shape(a, v / 2, k);
        let t = put_u(a, v, n);
        assert(t.last() == s[(a.len() + n - 1) as int]);
        assert(put_u(a, v / 2, k) =~= s.take((a.len() + k) as int)) by {
            assert(t.drop_last() =~= put_u(a, v / 2, k));
            assert(t.drop_last() =~= s.take((a.len() + k) as int));
        }
        lemma_uval_put(s, a, v / 2, k);
    }
}

pub proof fn lemma_log2(v: nat)
    requires
        v >= 1,
    ensures
        pow2(log2(v)) <= v < pow2(log2(v) + 1),
    decreases v,
{
    lemma2_to64();
    if v > 1 {
        lemma_log2(v / 2);
        lemma_pow2_unfold(log2(v));
        lemma_pow2_unfold(log2(v) + 1);
    }
}

/// The digit count is determined by the bounds on the value.
pub proof fn lemma_log2_unique(v: nat, z: nat)
    requires
        pow2(z) <= v < pow2(z + 1),
    ensures
        log2(v) == z,
    decreases z,
{
    lemma_pow2_pos(z);
    lemma_pow2_unfold(z + 1);
    if z == 0 {
        lemma2_to64();
    } else {
        lemma_pow2_unfold(z);
        lemma_pow2_pos((z - 1) as nat);
        lemma_log2_unique(v / 2, (z - 1) as nat);
    }
}

pub proof fn lemma_zeros(s: Seq<bool>, p: nat, max: nat)
    ensures
        zeros_at(s, p, max) <= max,
        uval(s, p, zeros_at(s, p, max)) == 0,
        zeros_at(s, p, max) < max ==> bit_val(s, p + zeros_at(s, p, max)) == 1,
    decreases max,
{
    reveal(uval);
    if max > 0 && bit_val(s, p) != 1 {
        let m = (max - 1) as nat;
        lemma_zeros(s, p + 1, m);
        let z = zeros_at(s, p + 1, m);
        lemma_uval_split(s, p, 1, z);
        assert(uval(s, p, 1) == 0) by {
            assert(uval(s, p, 0) == 0);
        }
        assert(0 * pow2(z) == 0) by (nonlinear_arith);
        assert(p + (1 + z) == (p + 1) + z);
    } else {
        assert(uval(s, p, 0) == 0);
    }
}

/// `z` zero digits and then a one: that is the count of leading zeros.
pub proof fn lemma_zeros_is(s: Seq<bool>, p: nat, z: nat, max: nat)
    requires
        z < max,
        uval(s, p, z) == 0,
        bit_val(s, p + z) == 1,
    ensures
        zeros_at(s, p, max) == z,
    decreases z,
{
    reveal(uval);
    if z > 0 {
        let k = (z - 1) as nat;
        lemma_uval_split(s, p, 1, k);
        lemma_pow2_pos(k);
        assert(uval(s, p, 0) == 0);
        assert(uval(s, p, 1) == bit_val(s, p));
        assert(bit_val(s, p) == 0) by {
            if bit_val(s, p) == 1 {
                assert(1 * pow2(k) == pow2(k));
            }
        }
        assert((p + 1) + k == p + z);
        lemma_zeros_is(s, p + 1, k, (max - 1) as nat);
    }
}

/// The value of an Exp-Golomb code: one more than the coded number.
pub proof fn lemma_ue_range(s: Seq<bool>, p: nat)
    requires
        zeros_at(s, p, 32) < 32,
    ensures
        ({
            let z = zeros_at(s, p, 32);
            &&& pow2(z) <= uval(s, p, 2 * z + 1) < pow2(z + 1)
            &&& 1 <= uval(s, p, 2 * z + 1) <= 0xffff_ffff
            &&& uval(s, p, 2 * z + 1) == uval(s, p + z, z + 1)
            &&& uval(s, p, 2 * z + 1) == pow2(z) + uval(s, p + z + 1, z)
            &&& log2(uval(s, p, 2 * z + 1)) == z
        }),
{
    let z = zeros_at(s, p, 32);
    lemma_zeros(s, p, 32);
    lemma_uval_split(s, p, z, z + 1);
    assert(z + (z + 1) == 2 * z + 1);
    assert(0 * pow2(z + 1) == 0) by (nonlinear_arith);
    lemma_uval_split(s, p + z, 1, z);
    assert(uval(s, p + z, 1) == 1) by {
        reveal(uval);
        assert(uval(s, p + z, 0) == 0);
    }
    assert(1 * pow2(z) == pow2(z)) by (nonlinear_arith);
    lemma_uval_bound(s, p + z + 1, z);
    lemma_pow2_unfold(z + 1);
    lemma_pow2_pos(z);
    assert(1 + z == z + 1);
    assert((p + z) + 1 == p + z + 1);
    lemma_pow2_le(z + 1, 32);
    lemma2_to64();
    lemma_log2_unique(uval(s, p, 2 * z + 1), z);
}

pub proof fn lemma_pow2_le(m: nat, n: nat)
    requires
        m <= n,
    ensures
        pow2(m) <= pow2(n),
    decreases n - m,
{
    if m < n {
        lemma_pow2_le(m, (n - 1) as nat);
        lemma_pow2_unfold(n);
        lemma_pow2_pos((n - 1) as nat);
    }
}

// ─────────────────────────── Lemmas: bytes ──────────────────────────────────

pub proof fn lemma_bits_of_len(b: Seq<u8>)
    ensures
        bits_of(b).len() == 8 * b.len(),
    decreases b.len(),
{
    if b.len() > 0 {
        lemma_bits_of_len(b.drop_last());
        lemma_put_u_shape(bits_of(b.drop_last()), b.last() as nat, 8);
    }
}

pub proof fn lemma_bits_of_push(b: Seq<u8>, x: u8)
    ensures
        bits_of(b.push(x)) == put_u(bits_of(b), x as nat, 8),
{
    assert(b.push(x).drop_last() =~= b);
}

/// The bits of two byte strings behind one another.
pub proof fn lemma_bits_of_concat(b: Seq<u8>, c: Seq<u8>)
    ensures
        bits_of(b + c) == bits_of(b) + bits_of(c),
    decreases c.len(),
{
    if c.len() == 0 {
        assert(b + c =~= b);
        assert(bits_of(b) + bits_of(c) =~= bits_of(b)) by {
            lemma_bits_of_len(c);
        }
    } else {
        let d = c.drop_last();
        lemma_bits_of_concat(b, d);
        assert((b + d).push(c.last()) =~= b + c);
        assert(d.push(c.last()) =~= c);
        lemma_bits_of_push(b + d, c.last());
        lemma_bits_of_push(d, c.last());
        lemma_put_u_prefix(bits_of(b), bits_of(d), c.last() as nat, 8);
    }
}

pub proof fn lemma_put_u_prefix(a: Seq<bool>, b: Seq<bool>, v: nat, n: nat)
    ensures
        put_u(a + b, v, n) == a + put_u(b, v, n),
    decreases n,
{
    reveal(put_u);
    if n > 0 {
        lemma_put_u_prefix(a, b, v / 2, (n - 1) as nat);
    }
    assert(put_u(a + b, v, n) =~= a + put_u(b, v, n));
}

/// The bits of byte `i` have its value.
pub proof fn lemma_bits_of_byte(b: Seq<u8>, i: nat)
    requires
        i < b.len(),
    ensures
        uval(bits_of(b), 8 * i, 8) == b[i as int] as nat,
    decreases b.len(),
{
    let s = bits_of(b);
    let c = b.drop_last();
    lemma_bits_of_len(b);
    lemma_bits_of_len(c);
    lemma_put_u_shape(bits_of(c), b.last() as nat, 8);
    if i + 1 == b.len() {
        lemma2_to64();
        assert(s.take((8 * c.len() + 8) as int) =~= s);
        lemma_uval_put(s, bits_of(c), b.last() as nat, 8);
    } else {
        lemma_bits_of_byte(c, i);
        lemma_uval_same(bits_of(c), 8 * i, s, 8 * i, 8);
    }
}

pub proof fn lemma_uval_same(s: Seq<bool>, p: nat, t: Seq<bool>, q: nat, n: nat)
    requires
        forall|i: nat| i < n ==> #[trigger] bit_val(s, p + i) == bit_val(t, q + i),
    ensures
        uval(s, p, n) == uval(t, q, n),
    decreases n,
{
    reveal(uval);
    if n > 0 {
        let k = (n - 1) as nat;
        lemma_uval_same(s, p, t, q, k);
        assert(bit_val(s, p + k) == bit_val(t, q + k));
    }
}

/// A byte string is determined by its bits.
pub proof fn lemma_bits_of_injective(b: Seq<u8>, c: Seq<u8>)
    requires
        bits_of(b) == bits_of(c),
    ensures
        b == c,
{
    lemma_bits_of_len(b);
    lemma_bits_of_len(c);
    assert forall|i: int| 0 <= i < b.len() implies b[i] == c[i] by {
        lemma_bits_of_byte(b, i as nat);
        lemma_bits_of_byte(c, i as nat);
    }
    assert(b =~= c);
}

// ─────────────────────────── Laws of the fields ─────────────────────────────

pub broadcast proof fn law_adv_within(s: Seq<bool>, p: nat, n: nat)
    ensures
        #[trigger] within(s, adv(p, n)) ==> within(s, p) && adv(p, n) == p + n,
{
    reveal(within);
    reveal(adv);
}

pub broadcast proof fn law_adv_if_within(s: Seq<bool>, p: nat, n: nat, c: bool)
    ensures
        #[trigger] within(s, adv_if(p, n, c)) ==> within(s, p),
{
    reveal(within);
    reveal(adv);
    reveal(adv_if);
}

pub broadcast proof fn law_u32_fits(s: Seq<bool>, p: nat, n: nat)
    ensures
        n <= 32 ==> fits(#[trigger] u32_at(s, p, n) as nat, n) && u32_at(s, p, n) == uval(s, p, n),
{
    reveal(u32_at);
    lemma_uval_bound(s, p, n);
    if n <= 32 {
        lemma_pow2_le(n, 32);
        lemma2_to64();
    }
}

pub broadcast proof fn law_u16_fits(s: Seq<bool>, p: nat, n: nat)
    ensures
        n <= 16 ==> fits(#[trigger] u16_at(s, p, n) as nat, n) && u16_at(s, p, n) == uval(s, p, n),
{
    reveal(u16_at);
    lemma_uval_bound(s, p, n);
    if n <= 16 {
        lemma_pow2_le(n, 16);
        lemma2_to64();
    }
}

pub broadcast proof fn law_u8_fits(s: Seq<bool>, p: nat, n: nat)
    ensures
        n <= 8 ==> fits(#[trigger] u8_at(s, p, n) as nat, n) && u8_at(s, p, n) == uval(s, p, n),
{
    reveal(u8_at);
    lemma_uval_bound(s, p, n);
    if n <= 8 {
        lemma_pow2_le(n, 8);
        lemma2_to64();
    }
}

/// What the small widths hold, in plain numbers.
pub broadcast proof fn law_fits_small(v: nat, n: nat)
    ensures
        #[trigger] fits(v, n) <==> v < pow2(n),
        n == 1 ==> (fits(v, n) <==> v < 2),
        n == 2 ==> (fits(v, n) <==> v < 4),
        n == 3 ==> (fits(v, n) <==> v < 8),
        n == 4 ==> (fits(v, n) <==> v < 16),
        n == 5 ==> (fits(v, n) <==> v < 32),
        n == 6 ==> (fits(v, n) <==> v < 64),
        n == 7 ==> (fits(v, n) <==> v < 128),
        n == 8 ==> (fits(v, n) <==> v < 256),
        n == 16 ==> (fits(v, n) <==> v < 0x1_0000),
        n == 32 ==> (fits(v, n) <==> v < 0x1_0000_0000),
{
    lemma2_to64();
}

pub broadcast proof fn law_put_u_at(s: Seq<bool>, p: nat, v: nat, n: nat)
    requires
        v == uval(s, p, n),
        within(s, adv(p, n)),
    ensures
        #[trigger] put_u(upto(s, p), v, n) == upto(s, adv(p, n)),
{
    reveal(upto);
    law_adv_within(s, p, n);
    reveal(within);
    lemma_put_uval(s, p, n);
}

/// A one-bit field is set if it is not zero.
pub broadcast proof fn law_u8_bit(s: Seq<bool>, p: nat)
    ensures
        #[trigger] u8_at(s, p, 1) != 0 <==> flag_at(s, p),
{
    reveal(flag_at);
    law_u8_fits(s, p, 1);
    reveal_with_fuel(uval, 2);
}

pub broadcast proof fn law_put_bit_at(s: Seq<bool>, p: nat, v: nat)
    requires
        v != 0 <==> flag_at(s, p),
        within(s, adv(p, 1)),
    ensures
        #[trigger] put_bit(upto(s, p), v) == upto(s, adv(p, 1)),
{
    reveal(put_bit);
    reveal(put_flag);
    law_put_flag_at(s, p, v != 0);
}

pub broadcast proof fn law_put_flag_at(s: Seq<bool>, p: nat, b: bool)
    requires
        b == flag_at(s, p),
        within(s, adv(p, 1)),
    ensures
        #[trigger] put_flag(upto(s, p), b) == upto(s, adv(p, 1)),
{
    reveal(upto);
    reveal(put_flag);
    reveal(flag_at);
    law_adv_within(s, p, 1);
    reveal(within);
    assert(s.take((p + 1) as int) =~= s.take(p as int).push(s[p as int]));
}

pub broadcast proof fn law_put_u_if(s: Seq<bool>, p: nat, v: nat, n: nat, c: bool)
    requires
        c ==> v == uval(s, p, n),
        within(s, adv_if(p, n, c)),
    ensures
        #[trigger] put_u_if(upto(s, p), v, n, c) == upto(s, adv_if(p, n, c)),
{
    reveal(put_u_if);
    reveal(adv_if);
    if c {
        law_put_u_at(s, p, v, n);
    }
}

pub broadcast proof fn law_put_bit_if(s: Seq<bool>, p: nat, v: nat, c: bool)
    requires
        c ==> (v != 0 <==> flag_at(s, p)),
        within(s, adv_if(p, 1, c)),
    ensures
        #[trigger] put_bit_if(upto(s, p), v, c) == upto(s, adv_if(p, 1, c)),
{
    reveal(put_bit_if);
    reveal(adv_if);
    if c {
        law_put_bit_at(s, p, v);
    }
}

pub broadcast proof fn law_put_flag_if(s: Seq<bool>, p: nat, b: bool, c: bool)
    requires
        c ==> b == flag_at(s, p),
        within(s, adv_if(p, 1, c)),
    ensures
        #[trigger] put_flag_if(upto(s, p), b, c) == upto(s, adv_if(p, 1, c)),
{
    reveal(put_flag_if);
    reveal(adv_if);
    if c {
        law_put_flag_at(s, p, b);
    }
}

/// What a conditional field holds.
pub broadcast proof fn law_u8_if_fits(s: Seq<bool>, p: nat, n: nat, c: bool, d: u8)
    ensures
        #![trigger u8_if(s, p, n, c, d)]
        !c ==> u8_if(s, p, n, c, d) == d,
        c && n <= 8 ==> fits(u8_if(s, p, n, c, d) as nat, n) && u8_if(s, p, n, c, d) == uval(s, p, n),
        c && n == 1 ==> (u8_if(s, p, n, c, d) != 0 <==> flag_at(s, p)),
{
    reveal(u8_if);
    law_u8_fits(s, p, n);
    law_u8_bit(s, p);
}

/// What a conditional field holds.
pub broadcast proof fn law_u16_if_fits(s: Seq<bool>, p: nat, n: nat, c: bool, d: u16)
    ensures
        #![trigger u16_if(s, p, n, c, d)]
        !c ==> u16_if(s, p, n, c, d) == d,
        c && n <= 16 ==> fits(u16_if(s, p, n, c, d) as nat, n) && u16_if(s, p, n, c, d) == uval(s, p, n),
{
    reveal(u16_if);
    law_u16_fits(s, p, n);
}

/// What a conditional field holds.
pub broadcast proof fn law_u32_if_fits(s: Seq<bool>, p: nat, n: nat, c: bool, d: u32)
    ensures
        #![trigger u32_if(s, p, n, c, d)]
        !c ==> u32_if(s, p, n, c, d) == d,
        c && n <= 32 ==> fits(u32_if(s, p, n, c, d) as nat, n) && u32_if(s, p, n, c, d) == uval(s, p, n),
{
    reveal(u32_if);
    law_u32_fits(s, p, n);
}

pub broadcast proof fn law_put_ue_at(s: Seq<bool>, p: nat)
    ensures
        #[trigger] ue_at(s, p) matches Ok((v, q)) ==> {
            &&& ue_fits(v as nat)
            &&& within(s, q) ==> within(s, p) && put_ue(upto(s, p), v as nat) == upto(s, q)
        },
{
    reveal(ue_at);
    let z = zeros_at(s, p, 32);
    if z < 32 {
        lemma_ue_range(s, p);
        if within(s, adv(p, 2 * z + 1)) {
            law_adv_within(s, p, 2 * z + 1);
            reveal(within);
            reveal(upto);
            reveal(put_ue);
            lemma_put_uval(s, p, 2 * z + 1);
        }
    }
}

pub broadcast proof fn law_put_se_at(s: Seq<bool>, p: nat)
    ensures
        #[trigger] se_at(s, p) matches Ok((v, q)) ==> {
            &&& se_fits(v as int)
            &&& within(s, q) ==> within(s, p) && put_se(upto(s, p), v as int) == upto(s, q)
        },
{
    reveal(se_at);
    reveal(put_se);
    law_put_ue_at(s, p);
}

pub broadcast proof fn law_put_ue_if(s: Seq<bool>, p: nat, c: bool, d: u32)
    ensures
        #[trigger] ue_if(s, p, c, d) matches Ok((v, q)) ==> {
            &&& c ==> ue_fits(v as nat)
            &&& !c ==> v == d
            &&& within(s, q) ==> within(s, p) && put_ue_if(upto(s, p), v as nat, c) == upto(s, q)
        },
{
    reveal(ue_if);
    reveal(put_ue_if);
    law_put_ue_at(s, p);
}

pub broadcast proof fn law_put_se_if(s: Seq<bool>, p: nat, c: bool, d: i32)
    ensures
        #[trigger] se_if(s, p, c, d) matches Ok((v, q)) ==> {
            &&& c ==> se_fits(v as int)
            &&& !c ==> v == d
            &&& within(s, q) ==> within(s, p) && put_se_if(upto(s, p), v as int, c) == upto(s, q)
        },
{
    reveal(se_if);
    reveal(put_se_if);
    law_put_se_at(s, p);
}

pub broadcast proof fn law_put_align_at(s: Seq<bool>, p: nat)
    ensures
        #[trigger] align_at(s, p) matches Ok(q) ==> within(s, q) ==> within(s, p) && put_align(
            upto(s, p),
        ) == upto(s, q),
{
    reveal(align_at);
    reveal(put_align);
    reveal(within);
    reveal(upto);
    let n = pad_len(p);
    if align_at(s, p) is Ok && within(s, adv(p, n)) {
        law_adv_within(s, p, n);
        lemma_put_uval(s, p, n);
    }
}

pub broadcast proof fn law_put_align_if(s: Seq<bool>, p: nat, c: bool)
    ensures
        #[trigger] align_if(s, p, c) matches Ok(q) ==> within(s, q) ==> within(s, p)
            && put_align_if(upto(s, p), c) == upto(s, q),
{
    reveal(align_if);
    reveal(put_align_if);
    law_put_align_at(s, p);
}

// ─────────────────────────── Reading back what was written ──────────────────

pub proof fn lemma_pre_put_u(a: Seq<bool>, v: nat, n: nat, s: Seq<bool>)
    requires
        pre(put_u(a, v, n), s),
    ensures
        pre(a, s),
        adv(a.len(), n) == put_u(a, v, n).len(),
        fits(v, n) ==> uval(s, a.len(), n) == v,
{
    reveal(pre);
    reveal(adv);
    lemma_put_u_shape(a, v, n);
    assert(s.take(a.len() as int) =~= put_u(a, v, n).take(a.len() as int));
    if fits(v, n) {
        lemma_uval_put(s, a, v, n);
    }
}

pub broadcast proof fn law_pre_put_u(a: Seq<bool>, v: nat, n: nat, s: Seq<bool>)
    requires
        #[trigger] pre(put_u(a, v, n), s),
    ensures
        pre(a, s),
        adv(a.len(), n) == put_u(a, v, n).len(),
        fits(v, n) && n <= 8 ==> u8_at(s, a.len(), n) == v,
        fits(v, n) && n <= 16 ==> u16_at(s, a.len(), n) == v,
        fits(v, n) && n <= 32 ==> u32_at(s, a.len(), n) == v,
{
    lemma_pre_put_u(a, v, n, s);
    law_u8_fits(s, a.len(), n);
    law_u16_fits(s, a.len(), n);
    law_u32_fits(s, a.len(), n);
}

pub broadcast proof fn law_pre_put_u_if(a: Seq<bool>, v: nat, n: nat, c: bool, s: Seq<bool>)
    requires
        #[trigger] pre(put_u_if(a, v, n, c), s),
    ensures
        pre(a, s),
        adv_if(a.len(), n, c) == put_u_if(a, v, n, c).len(),
        c && fits(v, n) && n <= 8 ==> u8_at(s, a.len(), n) == v,
        c && fits(v, n) && n <= 16 ==> u16_at(s, a.len(), n) == v,
        c && fits(v, n) && n <= 32 ==> u32_at(s, a.len(), n) == v,
{
    reveal(put_u_if);
    reveal(adv_if);
    if c {
        law_pre_put_u(a, v, n, s);
    }
}

pub broadcast proof fn law_pre_put_bit(a: Seq<bool>, v: nat, s: Seq<bool>)
    requires
        #[trigger] pre(put_bit(a, v), s),
    ensures
        pre(a, s),
        adv(a.len(), 1) == put_bit(a, v).len(),
        fits(v, 1) ==> u8_at(s, a.len(), 1) == v,
{
    reveal(put_bit);
    reveal_with_fuel(put_u, 2);
    lemma2_to64();
    let w: nat = if v != 0 { 1 } else { 0 };
    assert(put_u(a, w, 1) =~= a.push(v != 0));
    law_pre_put_u(a, w, 1, s);
}

pub broadcast proof fn law_pre_put_bit_if(a: Seq<bool>, v: nat, c: bool, s: Seq<bool>)
    requires
        #[trigger] pre(put_bit_if(a, v, c), s),
    ensures
        pre(a, s),
        adv_if(a.len(), 1, c) == put_bit_if(a, v, c).len(),
        c && fits(v, 1) ==> u8_at(s, a.len(), 1) == v,
{
    reveal(put_bit_if);
    reveal(adv_if);
    if c {
        law_pre_put_bit(a, v, s);
    }
}

pub broadcast proof fn law_pre_put_flag(a: Seq<bool>, b: bool, s: Seq<bool>)
    requires
        #[trigger] pre(put_flag(a, b), s),
    ensures
        pre(a, s),
        adv(a.len(), 1) == put_flag(a, b).len(),
        flag_at(s, a.len()) == b,
{
    reveal(put_flag);
    reveal(pre);
    reveal(adv);
    reveal(flag_at);
    let t = a.push(b);
    assert(s.take(t.len() as int)[a.len() as int] == b);
    assert(s.take(a.len() as int) =~= t.take(a.len() as int));
    assert(t.take(a.len() as int) =~= a);
}

pub broadcast proof fn law_pre_put_flag_if(a: Seq<bool>, b: bool, c: bool, s: Seq<bool>)
    requires
        #[trigger] pre(put_flag_if(a, b, c), s),
    ensures
        pre(a, s),
        adv_if(a.len(), 1, c) == put_flag_if(a, b, c).len(),
        c ==> flag_at(s, a.len()) == b,
{
    reveal(put_flag_if);
    reveal(adv_if);
    if c {
        law_pre_put_flag(a, b, s);
    }
}

/// The value of a conditional field from that of its coded form.
pub broadcast proof fn law_u8_if_is(s: Seq<bool>, p: nat, n: nat, c: bool, d: u8)
    ensures
        #[trigger] u8_if(s, p, n, c, d) == (if c { u8_at(s, p, n) } else { d }),
{
    reveal(u8_if);
}

/// The value of a conditional field from that of its coded form.
pub broadcast proof fn law_u16_if_is(s: Seq<bool>, p: nat, n: nat, c: bool, d: u16)
    ensures
        #[trigger] u16_if(s, p, n, c, d) == (if c { u16_at(s, p, n) } else { d }),
{
    reveal(u16_if);
}

/// The value of a conditional field from that of its coded form.
pub broadcast proof fn law_u32_if_is(s: Seq<bool>, p: nat, n: nat, c: bool, d: u32)
    ensures
        #[trigger] u32_if(s, p, n, c, d) == (if c { u32_at(s, p, n) } else { d }),
{
    reveal(u32_if);
}

/// The value of a conditional field from that of its coded form.
pub broadcast proof fn law_flag_if_value(s: Seq<bool>, p: nat, c: bool, d: bool)
    ensures
        #[trigger] flag_if(s, p, c, d) == (if c { flag_at(s, p) } else { d }),
{
    reveal(flag_if);
}

pub broadcast proof fn law_pre_put_ue(a: Seq<bool>, v: nat, s: Seq<bool>)
    requires
        #[trigger] pre(put_ue(a, v), s),
    ensures
        pre(a, s),
        ue_fits(v) ==> ue_at(s, a.len()) == Ok::<(u32, nat), Fault>((v as u32, put_ue(a, v).len())),
{
    reveal(put_ue);
    let z = log2(v + 1);
    let n = 2 * z + 1;
    let p = a.len();
    lemma_log2(v + 1);
    lemma_pow2_le(z + 1, n);
    lemma_pre_put_u(a, v + 1, n, s);
    if ue_fits(v) {
        lemma2_to64();
        assert(z < 32) by {
            if z >= 32 {
                lemma_pow2_le(32, z);
            }
        }
        // The first `z` digits are zero, the next one is not.
        lemma_uval_split(s, p, z, z + 1);
        assert(z + (z + 1) == n);
        lemma_pow2_pos(z + 1);
        assert(uval(s, p, z) == 0) by {
            if uval(s, p, z) >= 1 {
                assert(uval(s, p, z) * pow2(z + 1) >= pow2(z + 1)) by (nonlinear_arith)
                    requires
                        uval(s, p, z) >= 1,
                        pow2(z + 1) >= 0,
                ;
            }
        }
        assert(0 * pow2(z + 1) == 0) by (nonlinear_arith);
        lemma_uval_split(s, p + z, 1, z);
        lemma_uval_bound(s, p + z + 1, z);
        assert(1 + z == z + 1);
        assert(bit_val(s, p + z) == 1) by {
            reveal_with_fuel(uval, 2);
            assert(uval(s, p + z, 1) == bit_val(s, p + z));
            if bit_val(s, p + z) == 0 {
                assert(0 * pow2(z) == 0) by (nonlinear_arith);
            }
        }
        lemma_zeros_is(s, p, z, 32);
        reveal(ue_at);
    }
}

pub broadcast proof fn law_pre_put_se(a: Seq<bool>, v: int, s: Seq<bool>)
    requires
        #[trigger] pre(put_se(a, v), s),
    ensures
        pre(a, s),
        se_fits(v) ==> se_at(s, a.len()) == Ok::<(i32, nat), Fault>((v as i32, put_se(a, v).len())),
{
    reveal(put_se);
    reveal(se_at);
    law_pre_put_ue(a, se_code(v), s);
}

pub broadcast proof fn law_pre_put_ue_if(a: Seq<bool>, v: nat, c: bool, s: Seq<bool>)
    requires
        #[trigger] pre(put_ue_if(a, v, c), s),
    ensures
        pre(a, s),
        !c ==> put_ue_if(a, v, c) == a,
        c && ue_fits(v) ==> ue_at(s, a.len()) == Ok::<(u32, nat), Fault>(
            (v as u32, put_ue_if(a, v, c).len()),
        ),
{
    reveal(put_ue_if);
    if c {
        law_pre_put_ue(a, v, s);
    }
}

pub broadcast proof fn law_pre_put_se_if(a: Seq<bool>, v: int, c: bool, s: Seq<bool>)
    requires
        #[trigger] pre(put_se_if(a, v, c), s),
    ensures
        pre(a, s),
        !c ==> put_se_if(a, v, c) == a,
        c && se_fits(v) ==> se_at(s, a.len()) == Ok::<(i32, nat), Fault>(
            (v as i32, put_se_if(a, v, c).len()),
        ),
{
    reveal(put_se_if);
    if c {
        law_pre_put_se(a, v, s);
    }
}

/// The value of a conditional code from that of its coded form.
pub broadcast proof fn law_ue_if_is(s: Seq<bool>, p: nat, c: bool, d: u32)
    ensures
        #[trigger] ue_if(s, p, c, d) == (if c { ue_at(s, p) } else { Ok((d, p)) }),
{
    reveal(ue_if);
}

/// The value of a conditional code from that of its coded form.
pub broadcast proof fn law_se_if_is(s: Seq<bool>, p: nat, c: bool, d: i32)
    ensures
        #[trigger] se_if(s, p, c, d) == (if c { se_at(s, p) } else { Ok((d, p)) }),
{
    reveal(se_if);
}

pub broadcast proof fn law_pre_put_align(a: Seq<bool>, s: Seq<bool>)
    requires
        #[trigger] pre(put_align(a), s),
    ensures
        pre(a, s),
        align_at(s, a.len()) == Ok::<nat, Fault>(put_align(a).len()),
{
    reveal(align_at);
    reveal(put_align);
    lemma_pow2_pos(pad_len(a.len()));
    lemma_pre_put_u(a, 0, pad_len(a.len()), s);
}

pub broadcast proof fn law_pre_put_align_if(a: Seq<bool>, c: bool, s: Seq<bool>)
    requires
        #[trigger] pre(put_align_if(a, c), s),
    ensures
        pre(a, s),
        align_if(s, a.len(), c) == Ok::<nat, Fault>(put_align_if(a, c).len()),
{
    reveal(align_if);
    reveal(put_align_if);
    if c {
        law_pre_put_align(a, s);
    }
}

/// Writing what was read gives back the bits that were read.
pub broadcast group group_write_read {
    law_adv_within,
    law_adv_if_within,
    law_u8_fits,
    law_u16_fits,
    law_u32_fits,
    law_u8_bit,
    law_fits_small,
    law_put_u_at,
    law_put_bit_at,
    law_put_flag_at,
    law_put_u_if,
    law_put_bit_if,
    law_put_flag_if,
    law_u8_if_fits,
    law_u16_if_fits,
    law_u32_if_fits,
    law_flag_if_value,
    law_put_ue_at,
    law_put_se_at,
    law_put_ue_if,
    law_put_se_if,
    law_put_align_at,
    law_put_align_if,
}

/// Reading what was written gives back the value that was written.
pub broadcast group group_read_written {
    law_fits_small,
    law_pre_put_u,
    law_pre_put_u_if,
    law_pre_put_bit,
    law_pre_put_bit_if,
    law_pre_put_flag,
    law_pre_put_flag_if,
    law_u8_if_is,
    law_u16_if_is,
    law_u32_if_is,
    law_flag_if_value,
    law_pre_put_ue,
    law_pre_put_se,
    law_pre_put_ue_if,
    law_pre_put_se_if,
    law_ue_if_is,
    law_se_if_is,
    law_pre_put_align,
    law_pre_put_align_if,
}

/// A ue(v) code takes at least one bit.
pub proof fn lemma_put_ue_grows(a: Seq<bool>, v: nat)
    ensures
        put_ue(a, v).len() > a.len(),
{
    reveal(put_ue);
    lemma_put_u_shape(a, v + 1, 2 * log2(v + 1) + 1);
}

/// Bits take no less than none.
pub proof fn lemma_put_u_if_grows(a: Seq<bool>, v: nat, n: nat, c: bool)
    ensures
        put_u_if(a, v, n, c).len() == a.len() + if c {
            n
        } else {
            0
        },
{
    reveal(put_u_if);
    lemma_put_u_shape(a, v, n);
}

/// A flag takes at most one bit.
pub proof fn lemma_put_flag_if_grows(a: Seq<bool>, b: bool, c: bool)
    ensures
        put_flag_if(a, b, c).len() == a.len() + if c {
            1int
        } else {
            0int
        },
{
    reveal(put_flag_if);
    reveal(put_flag);
}

// ─────────────────────────── Laws of repetition ─────────────────────────────

/// Once an item cannot be read, the repetition has failed for good.
pub proof fn lemma_rep_step<T>(f: spec_fn(Seq<T>, nat) -> Read<T>, p: nat, n: nat)
    ensures
        rep_at(f, p, 0) == Ok::<(Seq<T>, nat), Fault>((Seq::empty(), p)),
        n > 0 ==> rep_at(f, p, n) == match rep_at(f, p, (n - 1) as nat) {
            Err(e) => Err(e),
            Ok((done, q)) => match f(done, q) {
                Err(e) => Err(e),
                Ok((x, r)) => Ok((done.push(x), r)),
            },
        },
        rep_at(f, p, n) matches Ok((xs, _)) ==> xs.len() == n,
    decreases n,
{
    if n > 0 {
        lemma_rep_step(f, p, (n - 1) as nat);
    }
}

pub proof fn lemma_rep_places<T>(f: spec_fn(Seq<T>, nat) -> Read<T>, p: nat, n: nat) -> (at: Seq<nat>)
    requires
        rep_at(f, p, n) is Ok,
    ensures
        at.len() == n + 1,
        at[0] == p,
        ({
            let (xs, q) = rep_at(f, p, n)->Ok_0;
            &&& xs.len() == n
            &&& at[n as int] == q
            &&& forall|i: int|
                0 <= i < n ==> f(xs.take(i), #[trigger] at[i]) == Ok::<(T, nat), Fault>((xs[i], at[i + 1]))
        }),
    decreases n,
{
    lemma_rep_step(f, p, n);
    let (xs, q) = rep_at(f, p, n)->Ok_0;
    if n == 0 {
        seq![p]
    } else {
        let before = lemma_rep_places(f, p, (n - 1) as nat);
        let at = before.push(q);
        let (ys, _) = rep_at(f, p, (n - 1) as nat)->Ok_0;
        assert(xs.drop_last() =~= ys);
        assert forall|i: int| 0 <= i < n implies f(xs.take(i), #[trigger] at[i]) == Ok::<(T, nat), Fault>(
            (xs[i], at[i + 1]),
        ) by {
            assert(before[i] == at[i]);
            if i < n - 1 {
                assert(xs.take(i) =~= ys.take(i));
            } else {
                assert(xs.take(i) =~= ys);
            }
        }
        at
    }
}

pub proof fn lemma_rep_err<T>(f: spec_fn(Seq<T>, nat) -> Read<T>, p: nat, i: nat, n: nat)
    requires
        i <= n,
        rep_at(f, p, i) is Err,
    ensures
        rep_at(f, p, n) == rep_at(f, p, i),
    decreases n,
{
    if i < n {
        lemma_rep_err(f, p, i, (n - 1) as nat);
    }
}

/// Writing the items that were read gives back the bits that were read, if
/// that holds of each item.
pub proof fn law_put_rep_at<T>(
    s: Seq<bool>,
    f: spec_fn(Seq<T>, nat) -> Read<T>,
    g: spec_fn(Seq<bool>, Seq<T>, T) -> Seq<bool>,
    ok: spec_fn(Seq<T>, T) -> bool,
    p: nat,
    n: nat,
)
    requires
        forall|d: Seq<T>, q: nat|
            #![trigger f(d, q)]
            d.len() < n && all_ok(ok, d) ==> (f(d, q) matches Ok((x, r)) ==> ok(d, x) && (within(s, r) ==> within(s, q) && g(
                upto(s, q),
                d,
                x,
            ) == upto(s, r))),
    ensures
        rep_at(f, p, n) matches Ok((xs, r)) ==> {
            &&& xs.len() == n
            &&& all_ok(ok, xs)
            &&& within(s, r) ==> within(s, p) && put_rep(g, upto(s, p), xs) == upto(s, r)
        },
    decreases n,
{
    if n > 0 {
        law_put_rep_at(s, f, g, ok, p, (n - 1) as nat);
        if let Ok((xs, r)) = rep_at(f, p, n) {
            assert(xs.drop_last() =~= rep_at(f, p, (n - 1) as nat)->Ok_0.0);
            let d = xs.drop_last();
            assert(all_ok(ok, d));
            assert forall|i: int| 0 <= i < xs.len() implies ok(#[trigger] xs.take(i), xs[i]) by {
                if i < d.len() {
                    assert(xs.take(i) =~= d.take(i));
                    assert(ok(d.take(i), d[i]));
                } else {
                    assert(xs.take(i) =~= d);
                }
            }
        }
    }
}

/// Reading the items that were written gives back the items, if that holds of
/// each item.
pub proof fn law_rep_at_put<T>(
    s: Seq<bool>,
    f: spec_fn(Seq<T>, nat) -> Read<T>,
    g: spec_fn(Seq<bool>, Seq<T>, T) -> Seq<bool>,
    ok: spec_fn(Seq<T>, T) -> bool,
    a: Seq<bool>,
    xs: Seq<T>,
)
    requires
        forall|b: Seq<bool>, d: Seq<T>, x: T|
            #![trigger g(b, d, x)]
            ok(d, x) && pre(g(b, d, x), s) ==> pre(b, s) && f(d, b.len()) == Ok::<(T, nat), Fault>(
                (x, g(b, d, x).len()),
            ),
        all_ok(ok, xs),
        pre(put_rep(g, a, xs), s),
    ensures
        pre(a, s),
        rep_at(f, a.len(), xs.len()) == Ok::<(Seq<T>, nat), Fault>((xs, put_rep(g, a, xs).len())),
    decreases xs.len(),
{
    if xs.len() > 0 {
        let d = xs.drop_last();
        assert(xs.take(xs.len() - 1) =~= d);
        assert(ok(xs.take(xs.len() - 1), xs[xs.len() - 1]));
        assert(ok(d, xs.last()));
        assert forall|i: int| 0 <= i < d.len() implies ok(#[trigger] d.take(i), d[i]) by {
            assert(xs.take(i) =~= d.take(i));
            assert(ok(xs.take(i), xs[i]));
        }
        law_rep_at_put(s, f, g, ok, a, d);
        assert(d.push(xs.last()) =~= xs);
    } else {
        assert(xs =~= Seq::empty());
    }
}

/// Items that take at least `c` bits each take that many times their number.
pub proof fn lemma_put_rep_grows<T>(
    g: spec_fn(Seq<bool>, Seq<T>, T) -> Seq<bool>,
    a: Seq<bool>,
    xs: Seq<T>,
    c: nat,
)
    requires
        forall|b: Seq<bool>, d: Seq<T>, x: T| (#[trigger] g(b, d, x)).len() >= b.len() + c,
    ensures
        put_rep(g, a, xs).len() >= a.len() + c * xs.len(),
    decreases xs.len(),
{
    if xs.len() > 0 {
        lemma_put_rep_grows(g, a, xs.drop_last(), c);
        assert(c * xs.len() == c * (xs.len() - 1) + c) by (nonlinear_arith)
            requires
                xs.len() > 0,
        ;
    }
}

// ─────────────────────────── Digits ─────────────────────────────────────────

/// Digit `k` of an `n`-digit value.
pub proof fn lemma_uval_digit(s: Seq<bool>, p: nat, n: nat, k: nat)
    requires
        k < n,
    ensures
        (uval(s, p, n) / pow2((n - 1 - k) as nat)) % 2 == bit_val(s, p + k),
    decreases n,
{
    reveal(uval);
    let m = (n - 1) as nat;
    assert(uval(s, p, n) / 2 == uval(s, p, m));
    if k == m {
        lemma2_to64();
        assert((n - 1 - k) as nat == 0);
        assert((p + n - 1) as nat == p + k);
        assert(uval(s, p, n) / 1 == uval(s, p, n));
    } else {
        let e = (n - 2 - k) as nat;
        lemma_uval_digit(s, p, m, k);
        lemma_pow2_unfold((n - 1 - k) as nat);
        assert(((n - 1 - k) as nat - 1) as nat == e);
        assert((m - 1 - k) as nat == e);
        lemma_pow2_pos(e);
        lemma_div_denominator(uval(s, p, n) as int, 2, pow2(e) as int);
    }
}

/// The bits of a byte are its binary digits.
pub proof fn lemma_bits_of_digit(b: Seq<u8>, i: nat, k: nat)
    requires
        i < b.len(),
        k < 8,
    ensures
        bit_val(bits_of(b), 8 * i + k) == (b[i as int] as nat / pow2((7 - k) as nat)) % 2,
{
    lemma_bits_of_byte(b, i);
    lemma_uval_digit(bits_of(b), 8 * i, 8, k);
}

/// A field splits into its first and its last digits.
pub proof fn lemma_put_u_split(a: Seq<bool>, v: nat, m: nat, n: nat)
    ensures
        put_u(a, v, m + n) == put_u(put_u(a, v / pow2(n), m), v, n),
    decreases n,
{
    reveal(put_u);
    if n == 0 {
        lemma2_to64();
    } else {
        let k = (n - 1) as nat;
        lemma_put_u_split(a, v / 2, m, k);
        lemma_pow2_unfold(n);
        lemma_pow2_pos(k);
        lemma_div_denominator(v as int, 2, pow2(k) as int);
        assert((m + n - 1) as nat == m + k);
    }
}

/// A field of zeros, one bit wider.
pub proof fn lemma_put_u_zero(a: Seq<bool>, n: nat)
    ensures
        put_u(a, 0, n + 1) == put_u(a, 0, n).push(false),
{
    reveal(put_u);
}

// ─────────────────────────── Lists of plain fields ──────────────────────────

/// ue(v) items, one behind the other.
pub open spec fn ues_item(s: Seq<bool>) -> spec_fn(Seq<u32>, nat) -> Read<u32> {
    |done: Seq<u32>, q: nat| ue_at(s, q)
}

/// Writes one item of such a list.
pub open spec fn put_ues_item() -> spec_fn(Seq<bool>, Seq<u32>, u32) -> Seq<bool> {
    |a: Seq<bool>, done: Seq<u32>, x: u32| put_ue(a, x as nat)
}

/// What an item of such a list may be.
pub open spec fn ues_item_ok() -> spec_fn(Seq<u32>, u32) -> bool {
    |done: Seq<u32>, x: u32| ue_fits(x as nat)
}

/// A list of such items.
#[verifier::opaque]
pub open spec fn ues_at(s: Seq<bool>, p: nat, n: nat) -> Read<Seq<u32>> {
    rep_at(ues_item(s), p, n)
}

/// Writes such a list.
#[verifier::opaque]
pub open spec fn put_ues(a: Seq<bool>, xs: Seq<u32>) -> Seq<bool> {
    put_rep(put_ues_item(), a, xs)
}

/// What such a list may hold.
pub open spec fn ues_ok(xs: Seq<u32>) -> bool {
    forall|i: int| 0 <= i < xs.len() ==> ue_fits(#[trigger] xs[i] as nat)
}

pub broadcast proof fn law_put_ues_at(s: Seq<bool>, p: nat, n: nat)
    ensures
        #[trigger] ues_at(s, p, n) matches Ok((xs, q)) ==> {
            &&& xs.len() == n
            &&& ues_ok(xs)
            &&& within(s, q) ==> within(s, p) && put_ues(upto(s, p), xs) == upto(s, q)
        },
{
    broadcast use group_write_read;

    reveal(ues_at);
    reveal(put_ues);
    law_put_rep_at(s, ues_item(s), put_ues_item(), ues_item_ok(), p, n);
    if let Ok((xs, q)) = ues_at(s, p, n) {
        assert forall|i: int| 0 <= i < xs.len() implies ues_item_ok()(xs.take(i), #[trigger] xs[i]) by {}
    }
}

pub broadcast proof fn law_pre_put_ues(a: Seq<bool>, xs: Seq<u32>, s: Seq<bool>)
    requires
        #[trigger] pre(put_ues(a, xs), s),
        ues_ok(xs),
    ensures
        pre(a, s),
        ues_at(s, a.len(), xs.len()) == Ok::<(Seq<u32>, nat), Fault>((xs, put_ues(a, xs).len())),
{
    broadcast use group_read_written;

    reveal(ues_at);
    reveal(put_ues);
    law_rep_at_put(s, ues_item(s), put_ues_item(), ues_item_ok(), a, xs);
}

/// u(w) items, one behind the other.
pub open spec fn us_item(s: Seq<bool>, w: nat) -> spec_fn(Seq<u32>, nat) -> Read<u32> {
    |done: Seq<u32>, q: nat| Ok((u32_at(s, q, w), adv(q, w)))
}

/// Writes one item of such a list.
pub open spec fn put_us_item(w: nat) -> spec_fn(Seq<bool>, Seq<u32>, u32) -> Seq<bool> {
    |a: Seq<bool>, done: Seq<u32>, x: u32| put_u(a, x as nat, w)
}

/// What an item of such a list may be.
pub open spec fn us_item_ok(w: nat) -> spec_fn(Seq<u32>, u32) -> bool {
    |done: Seq<u32>, x: u32| fits(x as nat, w)
}

/// A list of such items.
#[verifier::opaque]
pub open spec fn us_at(s: Seq<bool>, p: nat, w: nat, n: nat) -> Read<Seq<u32>> {
    rep_at(us_item(s, w), p, n)
}

/// Writes such a list.
#[verifier::opaque]
pub open spec fn put_us(a: Seq<bool>, xs: Seq<u32>, w: nat) -> Seq<bool> {
    put_rep(put_us_item(w), a, xs)
}

/// What such a list may hold.
pub open spec fn us_ok(xs: Seq<u32>, w: nat) -> bool {
    forall|i: int| 0 <= i < xs.len() ==> fits(#[trigger] xs[i] as nat, w)
}

pub broadcast proof fn law_put_us_at(s: Seq<bool>, p: nat, w: nat, n: nat)
    requires
        w <= 32,
    ensures
        #[trigger] us_at(s, p, w, n) matches Ok((xs, q)) ==> {
            &&& xs.len() == n
            &&& us_ok(xs, w)
            &&& within(s, q) ==> within(s, p) && put_us(upto(s, p), xs, w) == upto(s, q)
        },
{
    broadcast use group_write_read;

    reveal(us_at);
    reveal(put_us);
    law_put_rep_at(s, us_item(s, w), put_us_item(w), us_item_ok(w), p, n);
    if let Ok((xs, q)) = us_at(s, p, w, n) {
        assert forall|i: int| 0 <= i < xs.len() implies us_item_ok(w)(xs.take(i), #[trigger] xs[i]) by {}
    }
}

pub broadcast proof fn law_pre_put_us(a: Seq<bool>, xs: Seq<u32>, w: nat, s: Seq<bool>)
    requires
        #[trigger] pre(put_us(a, xs, w), s),
        us_ok(xs, w),
        w <= 32,
    ensures
        pre(a, s),
        us_at(s, a.len(), w, xs.len()) == Ok::<(Seq<u32>, nat), Fault>((xs, put_us(a, xs, w).len())),
{
    broadcast use group_read_written;

    reveal(us_at);
    reveal(put_us);
    law_rep_at_put(s, us_item(s, w), put_us_item(w), us_item_ok(w), a, xs);
}

/// u(w) items of at most 8 bits, one behind the other.
pub open spec fn u8s_item(s: Seq<bool>, w: nat) -> spec_fn(Seq<u8>, nat) -> Read<u8> {
    |done: Seq<u8>, q: nat| Ok((u8_at(s, q, w), adv(q, w)))
}

/// Writes one item of such a list.
pub open spec fn put_u8s_item(w: nat) -> spec_fn(Seq<bool>, Seq<u8>, u8) -> Seq<bool> {
    |a: Seq<bool>, done: Seq<u8>, x: u8| put_u(a, x as nat, w)
}

/// What an item of such a list may be.
pub open spec fn u8s_item_ok(w: nat) -> spec_fn(Seq<u8>, u8) -> bool {
    |done: Seq<u8>, x: u8| fits(x as nat, w)
}

/// A list of such items.
#[verifier::opaque]
pub open spec fn u8s_at(s: Seq<bool>, p: nat, w: nat, n: nat) -> Read<Seq<u8>> {
    rep_at(u8s_item(s, w), p, n)
}

/// Writes such a list.
#[verifier::opaque]
pub open spec fn put_u8s(a: Seq<bool>, xs: Seq<u8>, w: nat) -> Seq<bool> {
    put_rep(put_u8s_item(w), a, xs)
}

/// What such a list may hold.
pub open spec fn u8s_ok(xs: Seq<u8>, w: nat) -> bool {
    forall|i: int| 0 <= i < xs.len() ==> fits(#[trigger] xs[i] as nat, w)
}

pub broadcast proof fn law_put_u8s_at(s: Seq<bool>, p: nat, w: nat, n: nat)
    requires
        w <= 8,
    ensures
        #[trigger] u8s_at(s, p, w, n) matches Ok((xs, q)) ==> {
            &&& xs.len() == n
            &&& u8s_ok(xs, w)
            &&& within(s, q) ==> within(s, p) && put_u8s(upto(s, p), xs, w) == upto(s, q)
        },
{
    broadcast use group_write_read;

    reveal(u8s_at);
    reveal(put_u8s);
    law_put_rep_at(s, u8s_item(s, w), put_u8s_item(w), u8s_item_ok(w), p, n);
    if let Ok((xs, q)) = u8s_at(s, p, w, n) {
        assert forall|i: int| 0 <= i < xs.len() implies u8s_item_ok(w)(xs.take(i), #[trigger] xs[i]) by {}
    }
}

pub broadcast proof fn law_pre_put_u8s(a: Seq<bool>, xs: Seq<u8>, w: nat, s: Seq<bool>)
    requires
        #[trigger] pre(put_u8s(a, xs, w), s),
        u8s_ok(xs, w),
        w <= 8,
    ensures
        pre(a, s),
        u8s_at(s, a.len(), w, xs.len()) == Ok::<(Seq<u8>, nat), Fault>((xs, put_u8s(a, xs, w).len())),
{
    broadcast use group_read_written;

    reveal(u8s_at);
    reveal(put_u8s);
    law_rep_at_put(s, u8s_item(s, w), put_u8s_item(w), u8s_item_ok(w), a, xs);
}

/// u(1) items as numbers, one behind the other.
pub open spec fn bitlist_item(s: Seq<bool>) -> spec_fn(Seq<u8>, nat) -> Read<u8> {
    |done: Seq<u8>, q: nat| Ok((u8_at(s, q, 1), adv(q, 1)))
}

/// Writes one item of such a list.
pub open spec fn put_bitlist_item() -> spec_fn(Seq<bool>, Seq<u8>, u8) -> Seq<bool> {
    |a: Seq<bool>, done: Seq<u8>, x: u8| put_bit(a, x as nat)
}

/// What an item of such a list may be.
pub open spec fn bitlist_item_ok() -> spec_fn(Seq<u8>, u8) -> bool {
    |done: Seq<u8>, x: u8| fits(x as nat, 1)
}

/// A list of such items.
#[verifier::opaque]
pub open spec fn bitlist_at(s: Seq<bool>, p: nat, n: nat) -> Read<Seq<u8>> {
    rep_at(bitlist_item(s), p, n)
}

/// Writes such a list.
#[verifier::opaque]
pub open spec fn put_bitlist(a: Seq<bool>, xs: Seq<u8>) -> Seq<bool> {
    put_rep(put_bitlist_item(), a, xs)
}

/// What such a list may hold.
pub open spec fn bitlist_ok(xs: Seq<u8>) -> bool {
    forall|i: int| 0 <= i < xs.len() ==> fits(#[trigger] xs[i] as nat, 1)
}

pub broadcast proof fn law_put_bitlist_at(s: Seq<bool>, p: nat, n: nat)
    ensures
        #[trigger] bitlist_at(s, p, n) matches Ok((xs, q)) ==> {
            &&& xs.len() == n
            &&& bitlist_ok(xs)
            &&& within(s, q) ==> within(s, p) && put_bitlist(upto(s, p), xs) == upto(s, q)
        },
{
    broadcast use group_write_read;

    reveal(bitlist_at);
    reveal(put_bitlist);
    law_put_rep_at(s, bitlist_item(s), put_bitlist_item(), bitlist_item_ok(), p, n);
    if let Ok((xs, q)) = bitlist_at(s, p, n) {
        assert forall|i: int| 0 <= i < xs.len() implies bitlist_item_ok()(xs.take(i), #[trigger] xs[i]) by {}
    }
}

pub broadcast proof fn law_pre_put_bitlist(a: Seq<bool>, xs: Seq<u8>, s: Seq<bool>)
    requires
        #[trigger] pre(put_bitlist(a, xs), s),
        bitlist_ok(xs),
    ensures
        pre(a, s),
        bitlist_at(s, a.len(), xs.len()) == Ok::<(Seq<u8>, nat), Fault>((xs, put_bitlist(a, xs).len())),
{
    broadcast use group_read_written;

    reveal(bitlist_at);
    reveal(put_bitlist);
    law_rep_at_put(s, bitlist_item(s), put_bitlist_item(), bitlist_item_ok(), a, xs);
}

/// u(1) items as truth values, one behind the other.
pub open spec fn flags_item(s: Seq<bool>) -> spec_fn(Seq<bool>, nat) -> Read<bool> {
    |done: Seq<bool>, q: nat| Ok((flag_at(s, q), adv(q, 1)))
}

/// Writes one item of such a list.
pub open spec fn put_flags_item() -> spec_fn(Seq<bool>, Seq<bool>, bool) -> Seq<bool> {
    |a: Seq<bool>, done: Seq<bool>, x: bool| put_flag(a, x)
}

/// What an item of such a list may be.
pub open spec fn flags_item_ok() -> spec_fn(Seq<bool>, bool) -> bool {
    |done: Seq<bool>, x: bool| true
}

/// A list of such items.
#[verifier::opaque]
pub open spec fn flags_at(s: Seq<bool>, p: nat, n: nat) -> Read<Seq<bool>> {
    rep_at(flags_item(s), p, n)
}

/// Writes such a list.
#[verifier::opaque]
pub open spec fn put_flags(a: Seq<bool>, xs: Seq<bool>) -> Seq<bool> {
    put_rep(put_flags_item(), a, xs)
}

/// What such a list may hold.
pub open spec fn flags_ok(xs: Seq<bool>) -> bool {
    true
}

pub broadcast proof fn law_put_flags_at(s: Seq<bool>, p: nat, n: nat)
    ensures
        #[trigger] flags_at(s, p, n) matches Ok((xs, q)) ==> {
            &&& xs.len() == n
            &&& flags_ok(xs)
            &&& within(s, q) ==> within(s, p) && put_flags(upto(s, p), xs) == upto(s, q)
        },
{
    broadcast use group_write_read;

    reveal(flags_at);
    reveal(put_flags);
    law_put_rep_at(s, flags_item(s), put_flags_item(), flags_item_ok(), p, n);
    if let Ok((xs, q)) = flags_at(s, p, n) {
        assert forall|i: int| 0 <= i < xs.len() implies flags_item_ok()(xs.take(i), #[trigger] xs[i]) by {}
    }
}

pub broadcast proof fn law_pre_put_flags(a: Seq<bool>, xs: Seq<bool>, s: Seq<bool>)
    requires
        #[trigger] pre(put_flags(a, xs), s),
        flags_ok(xs),
    ensures
        pre(a, s),
        flags_at(s, a.len(), xs.len()) == Ok::<(Seq<bool>, nat), Fault>((xs, put_flags(a, xs).len())),
{
    broadcast use group_read_written;

    reveal(flags_at);
    reveal(put_flags);
    law_rep_at_put(s, flags_item(s), put_flags_item(), flags_item_ok(), a, xs);
}

/// Every ue(v) item takes at least one bit.
pub proof fn lemma_put_ues_grows(a: Seq<bool>, xs: Seq<u32>)
    ensures
        put_ues(a, xs).len() >= a.len() + xs.len(),
{
    reveal(put_ues);
    let g = put_ues_item();
    assert forall|b: Seq<bool>, d: Seq<u32>, x: u32| (#[trigger] g(b, d, x)).len() >= b.len() + 1 by {
        lemma_put_ue_grows(b, x as nat);
    }
    lemma_put_rep_grows(g, a, xs, 1);
}

/// u(w) items take `w` bits each.
pub proof fn lemma_put_us_len(a: Seq<bool>, xs: Seq<u32>, w: nat)
    ensures
        put_us(a, xs, w).len() >= a.len() + xs.len() * w,
{
    reveal(put_us);
    let g = put_us_item(w);
    assert forall|b: Seq<bool>, d: Seq<u32>, x: u32| (#[trigger] g(b, d, x)).len() >= b.len() + w by {
        lemma_put_u_shape(b, x as nat, w);
    }
    lemma_put_rep_grows(g, a, xs, w);
    assert(w * xs.len() == xs.len() * w) by (nonlinear_arith);
}

/// Flags take one bit each.
pub proof fn lemma_put_flags_len(a: Seq<bool>, xs: Seq<bool>)
    ensures
        put_flags(a, xs).len() >= a.len() + xs.len(),
{
    reveal(put_flags);
    let g = put_flags_item();
    assert forall|b: Seq<bool>, d: Seq<bool>, x: bool| (#[trigger] g(b, d, x)).len() >= b.len() + 1 by {
        reveal(put_flag);
    }
    lemma_put_rep_grows(g, a, xs, 1);
}

pub broadcast group group_write_read_lists {
    law_put_ues_at,
    law_put_us_at,
    law_put_u8s_at,
    law_put_bitlist_at,
    law_put_flags_at,
}

/// The laws of the lists, reading what was written.
pub broadcast group group_read_written_lists {
    law_pre_put_ues,
    law_pre_put_us,
    law_pre_put_u8s,
    law_pre_put_bitlist,
    law_pre_put_flags,
}

// ─────────────────────────── The end of an RBSP ─────────────────────────────

/// The extension data bits at position `p`: every bit up to, and not
/// including, the stop bit of rbsp_trailing_bits().
pub open spec fn ext_data_at(s: Seq<bool>, p: nat) -> (Seq<u8>, nat)
    decreases s.len() - p,
{
    if more_data(s, p) {
        let (rest, q) = ext_data_at(s, p + 1);
        (seq![u8_at(s, p, 1)] + rest, q)
    } else {
        (Seq::empty(), p)
    }
}

/// The end of an RBSP at position `p`: extension data bits if `c`, and
/// rbsp_trailing_bits().
#[verifier::opaque]
pub open spec fn tail_at(s: Seq<bool>, p: nat, c: bool) -> Read<Seq<u8>> {
    let (data, q) = if c {
        ext_data_at(s, p)
    } else {
        (Seq::empty(), p)
    };
    match trailing_at(s, q) {
        Ok(q) => Ok((data, q)),
        Err(f) => Err(f),
    }
}

/// Writes the end of an RBSP.
#[verifier::opaque]
pub open spec fn put_tail(a: Seq<bool>, x: Seq<u8>, c: bool) -> Seq<bool> {
    put_trailing(if c {
        put_bitlist(a, x)
    } else {
        a
    })
}

/// Extension data that reading can give.
#[verifier::opaque]
pub open spec fn tail_ok(x: Seq<u8>, c: bool) -> bool {
    if c {
        bitlist_ok(x)
    } else {
        x.len() == 0
    }
}

/// Extension data that the writer accepts: none, or data that ends in a set
/// bit.
#[verifier::opaque]
pub open spec fn tail_can(x: Seq<u8>, c: bool) -> bool {
    if c {
        x.len() > 0 ==> x.last() != 0
    } else {
        x.len() == 0
    }
}

/// `a` is all of `s`.
#[verifier::opaque]
pub open spec fn whole(a: Seq<bool>, s: Seq<bool>) -> bool {
    a == s && s.len() < POS_CAP
}

pub proof fn lemma_put_u8s_len(a: Seq<bool>, xs: Seq<u8>, w: nat)
    ensures
        put_u8s(a, xs, w).len() == a.len() + w * xs.len(),
    decreases xs.len(),
{
    reveal(put_u8s);
    if xs.len() > 0 {
        lemma_put_u8s_len(a, xs.drop_last(), w);
        lemma_put_u_shape(put_u8s(a, xs.drop_last(), w), xs.last() as nat, w);
        let n = xs.drop_last().len();
        assert(w * (n + 1) == w * n + w) by (nonlinear_arith);
    } else {
        assert(w * 0 == 0) by (nonlinear_arith);
    }
}

pub proof fn lemma_put_bitlist_push(a: Seq<bool>, xs: Seq<u8>, x: u8)
    ensures
        put_bitlist(a, xs.push(x)) == put_bit(put_bitlist(a, xs), x as nat),
{
    reveal(put_bitlist);
    assert(xs.push(x).drop_last() =~= xs);
}

/// A list of bits, its first item first.
pub proof fn lemma_put_bitlist_cons(a: Seq<bool>, x: u8, xs: Seq<u8>)
    ensures
        put_bitlist(a, seq![x] + xs) == put_bitlist(put_bit(a, x as nat), xs),
    decreases xs.len(),
{
    if xs.len() == 0 {
        assert(seq![x] + xs =~= Seq::<u8>::empty().push(x));
        lemma_put_bitlist_push(a, Seq::empty(), x);
        reveal(put_bitlist);
    } else {
        let d = xs.drop_last();
        lemma_put_bitlist_cons(a, x, d);
        assert(seq![x] + xs =~= (seq![x] + d).push(xs.last()));
        assert(xs =~= d.push(xs.last()));
        lemma_put_bitlist_push(a, seq![x] + d, xs.last());
        lemma_put_bitlist_push(put_bit(a, x as nat), d, xs.last());
    }
}

pub proof fn lemma_put_bitlist_len(a: Seq<bool>, xs: Seq<u8>)
    ensures
        put_bitlist(a, xs).len() == a.len() + xs.len(),
    decreases xs.len(),
{
    reveal(put_bitlist);
    reveal(put_bit);
    if xs.len() > 0 {
        lemma_put_bitlist_len(a, xs.drop_last());
    }
}

pub proof fn lemma_ext_data(s: Seq<bool>, p: nat)
    requires
        p <= s.len() < POS_CAP,
    ensures
        ({
            let (x, q) = ext_data_at(s, p);
            &&& p <= q <= s.len()
            &&& q == p + x.len()
            &&& bitlist_ok(x)
            &&& put_bitlist(upto(s, p), x) == upto(s, q)
            &&& !more_data(s, q)
        }),
    decreases s.len() - p,
{
    broadcast use group_write_read;

    let (x, q) = ext_data_at(s, p);
    if more_data(s, p) {
        let i = choose|i: int| p < i < s.len() && #[trigger] s[i];
        lemma_ext_data(s, p + 1);
        let (rest, r) = ext_data_at(s, p + 1);
        let b = u8_at(s, p, 1);
        lemma_put_bitlist_cons(upto(s, p), b, rest);
        assert(adv(p, 1) == p + 1) by {
            reveal(adv);
        }
        assert(within(s, p + 1)) by {
            reveal(within);
        }
        assert forall|j: int| 0 <= j < x.len() implies fits(#[trigger] x[j] as nat, 1) by {
            if j > 0 {
                assert(x[j] == rest[j - 1]);
            }
        }
    } else {
        reveal(put_bitlist);
    }
}

/// Reading extension data that is followed by rbsp_trailing_bits() alone.
pub proof fn lemma_ext_data_written(s: Seq<bool>, a: Seq<bool>, x: Seq<u8>)
    requires
        bitlist_ok(x),
        s == put_trailing(put_bitlist(a, x)),
        s.len() < POS_CAP,
    ensures
        ext_data_at(s, a.len()) == (x, a.len() + x.len()),
    decreases x.len(),
{
    broadcast use group_read_written;

    let b = put_bitlist(a, x);
    lemma_put_bitlist_len(a, x);
    lemma_trailing_shape(b);
    assert(s[b.len() as int]);
    if x.len() == 0 {
        reveal(put_bitlist);
        assert(b == a);
        assert(!more_data(s, a.len()));
        assert(x =~= Seq::empty());
    } else {
        assert(more_data(s, a.len()));
        let y = x[0];
        let rest = x.skip(1);
        assert(x =~= seq![y] + rest);
        lemma_put_bitlist_cons(a, y, rest);
        let a1 = put_bit(a, y as nat);
        assert(a1.len() == a.len() + 1) by {
            reveal(put_bit);
        }
        assert forall|i: int| 0 <= i < rest.len() implies fits(#[trigger] rest[i] as nat, 1) by {
            assert(rest[i] == x[i + 1]);
        }
        lemma_ext_data_written(s, a1, rest);
        assert(pre(b, s)) by {
            reveal(pre);
        }
        law_pre_put_bitlist(a1, rest, s);
        law_pre_put_bit(a, y as nat, s);
        assert(fits(x[0] as nat, 1));
        assert(seq![y] + rest =~= x);
    }
}

/// rbsp_trailing_bits() is a set bit and at most seven zero bits.
pub proof fn lemma_trailing_shape(b: Seq<bool>)
    ensures
        put_trailing(b).len() == b.len() + 1 + pad_len(b.len() + 1),
        put_trailing(b).len() % 8 == 0,
        put_trailing(b).take(b.len() as int) == b,
        put_trailing(b)[b.len() as int],
        forall|i: int| b.len() < i < put_trailing(b).len() ==> !#[trigger] put_trailing(b)[i],
{
    let c = b.push(true);
    let n = pad_len(c.len());
    lemma_put_u_shape(c, 0, n);
    lemma_put_zeros(c, n);
    assert(put_trailing(b).take(b.len() as int) =~= c.take(b.len() as int));
    assert(c.take(b.len() as int) =~= b);
    assert(c[b.len() as int]);
}

pub proof fn lemma_put_zeros(a: Seq<bool>, n: nat)
    ensures
        put_u(a, 0, n).len() == a.len() + n,
        forall|i: int| a.len() <= i < a.len() + n ==> !#[trigger] put_u(a, 0, n)[i],
    decreases n,
{
    lemma_put_u_shape(a, 0, n);
    if n > 0 {
        lemma_put_zeros(a, (n - 1) as nat);
        lemma_put_u_zero(a, (n - 1) as nat);
    }
}

/// Writing the end of an RBSP that was read gives back all of its bits.
pub broadcast proof fn law_put_tail_at(s: Seq<bool>, p: nat, c: bool)
    ensures
        #[trigger] tail_at(s, p, c) matches Ok((x, q)) ==> {
            &&& tail_ok(x, c)
            &&& q == s.len()
            &&& within(s, q) ==> within(s, p) && put_tail(upto(s, p), x, c) == upto(s, q)
        },
{
    reveal(tail_at);
    reveal(put_tail);
    reveal(tail_ok);
    reveal(within);
    if tail_at(s, p, c) is Ok {
        if p > s.len() {
            assert(!more_data(s, p));
        } else if s.len() < POS_CAP {
            if c {
                lemma_ext_data(s, p);
            }
        } else if c {
            lemma_ext_data_ok(s, p);
        }
        assert(upto(s, s.len()) == s) by {
            reveal(upto);
            assert(s.take(s.len() as int) =~= s);
        }
    }
}

pub proof fn lemma_ext_data_ok(s: Seq<bool>, p: nat)
    ensures
        bitlist_ok(ext_data_at(s, p).0),
    decreases s.len() - p,
{
    broadcast use group_write_read;

    if more_data(s, p) {
        lemma_ext_data_ok(s, p + 1);
        let rest = ext_data_at(s, p + 1).0;
        let x = ext_data_at(s, p).0;
        assert forall|j: int| 0 <= j < x.len() implies fits(#[trigger] x[j] as nat, 1) by {
            if j > 0 {
                assert(x[j] == rest[j - 1]);
            }
        }
    }
}

/// The end of an RBSP that was written reads back.
pub broadcast proof fn law_pre_put_tail(a: Seq<bool>, x: Seq<u8>, c: bool, s: Seq<bool>)
    requires
        #[trigger] whole(put_tail(a, x, c), s),
        tail_ok(x, c),
    ensures
        pre(a, s),
        tail_at(s, a.len(), c) == Ok::<(Seq<u8>, nat), Fault>((x, s.len())),
{
    reveal(tail_at);
    reveal(put_tail);
    reveal(tail_ok);
    reveal(whole);
    let b = if c {
        put_bitlist(a, x)
    } else {
        a
    };
    lemma_trailing_shape(b);
    assert(pre(b, s)) by {
        reveal(pre);
    }
    assert(upto(s, b.len()) == b) by {
        reveal(upto);
    }
    if c {
        lemma_put_bitlist_len(a, x);
        lemma_ext_data_written(s, a, x);
        law_pre_put_bitlist(a, x, s);
    } else {
        assert(x =~= Seq::empty());
    }
}

/// rbsp_trailing_bits() ends at a byte boundary.
pub broadcast proof fn lemma_trailing_aligned(b: Seq<bool>)
    ensures
        #[trigger] put_trailing(b).len() % 8 == 0,
{
    lemma_trailing_shape(b);
}

/// Padding leaves whole bytes as they are.
pub proof fn lemma_pad_aligned(a: Seq<bool>)
    requires
        a.len() % 8 == 0,
    ensures
        pad(a) == a,
{
    reveal(put_u);
}

// ─────────────────────────── Elements ───────────────────────────────────────

/// The bits of a byte string are those of its bytes, the most significant bit of each
/// byte first.
pub proof fn law_bits_of(b: Seq<u8>, i: nat, k: nat)
    requires
        i < b.len(),
        k < 8,
    ensures
        bits_of(b).len() == 8 * b.len(),
        bits_of(b)[(8 * i + k) as int] <==> (b[i as int] as nat / pow2((7 - k) as nat)) % 2 == 1,
{
    lemma_bits_of_len(b);
    lemma_bits_of_digit(b, i, k);
}

/// A field of `n` bits holds a number below `2^n` whose most significant binary digit
/// stands first; behind the end there are zeros.
#[verifier::rlimit(50)]
#[verifier::spinoff_prover]
pub proof fn law_field(s: Seq<bool>, p: nat, n: nat, k: nat)
    requires
        k < n,
    ensures
        ({
            let bit = if p + k < s.len() && s[(p + k) as int] {
                1nat
            } else {
                0
            };
            &&& n <= 8 ==> (u8_at(s, p, n) as nat / pow2((n - 1 - k) as nat)) % 2 == bit
            &&& n <= 16 ==> (u16_at(s, p, n) as nat / pow2((n - 1 - k) as nat)) % 2 == bit
            &&& n <= 32 ==> (u32_at(s, p, n) as nat / pow2((n - 1 - k) as nat)) % 2 == bit
            &&& n == 1 ==> (flag_at(s, p) <==> bit == 1)
        }),
        n <= 8 ==> u8_at(s, p, n) < pow2(n),
        n <= 16 ==> u16_at(s, p, n) < pow2(n),
        n <= 32 ==> u32_at(s, p, n) < pow2(n),
{
    reveal(u8_at);
    reveal(u16_at);
    reveal(u32_at);
    reveal(flag_at);
    lemma_uval_digit(s, p, n, k);
    lemma_uval_bound(s, p, n);
    lemma2_to64();
    if n <= 8 {
        lemma_pow2_le(n, 8);
    }
    if n <= 16 {
        lemma_pow2_le(n, 16);
    }
    if n <= 32 {
        lemma_pow2_le(n, 32);
    }
}

/// A ue(v) code is `z` zeros, a one and `z` bits more, and stands for `2^z - 1` plus
/// the number in these bits. Positions below the cap move on by its length.
#[verifier::rlimit(50)]
#[verifier::spinoff_prover]
pub proof fn law_ue_code(s: Seq<bool>, p: nat, z: nat)
    requires
        z < 32,
        forall|i: nat| p <= i < p + z ==> #[trigger] bit_val(s, i) == 0,
        bit_val(s, p + z) == 1,
        p + 64 < POS_CAP,
    ensures
        ue_at(s, p) matches Ok((v, q)) && v + 1 == pow2(z) + uval(s, p + z + 1, z) && q == p + 2 * z + 1,
{
    reveal(ue_at);
    reveal(adv);
    lemma_zero_run(s, p, z);
    lemma_zeros_is(s, p, z, 32);
    lemma_uval_split(s, p, z, z + 1);
    lemma_uval_split(s, p + z, 1, z);
    reveal(uval);
    assert(uval(s, p + z, 0) == 0);
    assert(uval(s, p + z, 1) == 1);
    assert(0 * pow2(z + 1) == 0) by (nonlinear_arith);
    assert(z + (z + 1) == 2 * z + 1);
    assert(1 * pow2(z) == pow2(z));
    lemma_uval_bound(s, p + z + 1, z);
    lemma2_to64();
    lemma_pow2_le(z, 31);
    lemma_pow2_pos(z);
}

proof fn lemma_zero_run(s: Seq<bool>, p: nat, z: nat)
    requires
        forall|i: nat| p <= i < p + z ==> #[trigger] bit_val(s, i) == 0,
    ensures
        uval(s, p, z) == 0,
    decreases z,
{
    reveal(uval);
    if z > 0 {
        lemma_zero_run(s, p, (z - 1) as nat);
        assert(bit_val(s, (p + z - 1) as nat) == 0);
    }
}

/// A code with 32 zeros in front is refused.
pub proof fn law_ue_too_long(s: Seq<bool>, p: nat)
    requires
        forall|i: nat| p <= i < p + 32 ==> #[trigger] bit_val(s, i) == 0,
    ensures
        ue_at(s, p) == Err::<(u32, nat), Fault>(Fault::Invalid),
        se_at(s, p) == Err::<(i32, nat), Fault>(Fault::Invalid),
{
    reveal(ue_at);
    reveal(se_at);
    lemma_zeros(s, p, 32);
    let z = zeros_at(s, p, 32);
    if z < 32 {
        assert(bit_val(s, p + z) == 0);
    }
}

/// The numbers 1, 2, 3, 4 and on of ue(v) stand for 1, -1, 2, -2 and on in se(v).
pub proof fn law_se_code(s: Seq<bool>, p: nat, m: u32)
    requires
        0 < m < 0x8000_0000,
    ensures
        se_of(0) == 0,
        se_of((2 * m - 1) as u32) == m,
        m < 0x7fff_ffff ==> se_of((2 * m) as u32) == -m,
        se_at(s, p) == match ue_at(s, p) {
            Ok((k, q)) => Ok((se_of(k), q)),
            Err(f) => Err(f),
        },
{
    reveal(se_at);
}

/// Alignment bits are zeros up to the next byte boundary.
#[verifier::rlimit(50)]
#[verifier::spinoff_prover]
pub proof fn law_align(s: Seq<bool>, p: nat, q: nat)
    requires
        p + 8 < POS_CAP,
    ensures
        align_at(s, p) == Ok::<nat, Fault>(q) <==> ({
            &&& p <= q < p + 8 && q % 8 == 0
            &&& forall|i: nat| p <= i < q ==> #[trigger] bit_val(s, i) == 0
        }),
        align_at(s, p) matches Err(f) ==> f == Fault::Invalid,
{
    reveal(align_at);
    reveal(adv);
    let n = pad_len(p);
    assert((p + n) % 8 == 0 && 0 <= n < 8);
    if p <= q < p + 8 && q % 8 == 0 {
        assert(q == p + n);
    }
    if forall|i: nat| p <= i < p + n ==> #[trigger] bit_val(s, i) == 0 {
        lemma_zero_run(s, p, n);
    }
    if uval(s, p, n) == 0 {
        assert forall|i: nat| p <= i < p + n implies #[trigger] bit_val(s, i) == 0 by {
            lemma_uval_digit(s, p, n, (i - p) as nat);
            let d = pow2((n - 1 - (i - p)) as nat);
            lemma_pow2_pos((n - 1 - (i - p)) as nat);
            assert(0nat / d == 0) by (nonlinear_arith)
                requires
                    d > 0,
            ;
            assert(p + (i - p) as nat == i);
        }
    }
}

/// An RBSP ends with a one bit and zero bits up to the next byte boundary. The bits
/// before that one bit are the extension data, where there is any.
#[verifier::rlimit(50)]
#[verifier::spinoff_prover]
pub proof fn law_tail(s: Seq<bool>, p: nat, c: bool)
    requires
        p <= s.len() < POS_CAP,
    ensures
        tail_at(s, p, c) matches Ok((x, q)) ==> {
            let e = p + x.len();
            &&& q == s.len()
            &&& e < s.len() <= e + 8 && s.len() % 8 == 0
            &&& s[e as int]
            &&& forall|k: int| e < k < s.len() ==> !#[trigger] s[k]
            &&& !c ==> x.len() == 0
            &&& forall|i: int| 0 <= i < x.len() ==> #[trigger] x[i] == (if s[p + i] {
                1u8
            } else {
                0
            })
        },
        p >= s.len() ==> tail_at(s, p, c) == Err::<(Seq<u8>, nat), Fault>(Fault::End),
        !c && p < s.len() && s.len() % 8 == 0 && s.len() <= p + 8 && s[p as int] && (forall|k: int|
            p < k < s.len() ==> !#[trigger] s[k]) ==> tail_at(s, p, c) is Ok,
{
    reveal(tail_at);
    reveal(upto);
    lemma_ext_data(s, p);
    let (x, e) = if c {
        ext_data_at(s, p)
    } else {
        (Seq::empty(), p)
    };
    if p >= s.len() && c {
        assert(!more_data(s, p));
    }
    if trailing_at(s, e) is Ok {
        lemma_trailing_shape(upto(s, e));
        if c {
            assert forall|i: int| 0 <= i < x.len() implies #[trigger] x[i] == (if s[p + i] {
                1u8
            } else {
                0
            }) by {
                lemma_ext_data_bit(s, p, i);
            }
        }
    }
    if !c && p < s.len() && s.len() % 8 == 0 && s.len() <= p + 8 && s[p as int] && (forall|k: int|
        p < k < s.len() ==> !#[trigger] s[k]) {
        let t = put_trailing(upto(s, p));
        lemma_trailing_shape(upto(s, p));
        assert(t.len() == s.len());
        assert(t =~= s) by {
            assert forall|k: int| 0 <= k < s.len() implies t[k] == s[k] by {
                if k < p {
                    assert(t.take(p as int)[k] == t[k]);
                    assert(upto(s, p)[k] == s[k]);
                }
            }
        }
    }
}

proof fn lemma_ext_data_bit(s: Seq<bool>, p: nat, i: int)
    requires
        0 <= i < ext_data_at(s, p).0.len(),
        p <= s.len(),
    ensures
        p + i < s.len(),
        ext_data_at(s, p).0[i] == (if s[p + i] {
            1u8
        } else {
            0
        }),
    decreases i,
{
    assert(more_data(s, p));
    let k = choose|k: int| p < k < s.len() && #[trigger] s[k];
    if i == 0 {
        reveal(u8_at);
        reveal(uval);
        assert(uval(s, p, 0) == 0);
        assert(uval(s, p, 1) == bit_val(s, p));
    } else {
        lemma_ext_data_bit(s, p + 1, i - 1);
    }
}

/// `n` Exp-Golomb codes stand one behind the other: `n - 1`, and then one more.
pub proof fn law_layout_ues(s: Seq<bool>, p: nat, n: nat, xs: Seq<u32>, q: nat)
    ensures
        ues_at(s, p, n) == Ok::<(Seq<u32>, nat), Fault>((xs, q)) <==> if n == 0 {
            xs.len() == 0 && q == p
        } else {
            &&& xs.len() == n
            &&& cursor(s, p)
                .part(|p: nat| ues_at(s, p, (n - 1) as nat), xs.drop_last())
                .part(|p: nat| ue_at(s, p), xs.last())
                .ends(q)
        },
{
    reveal(ues_at);
    let f = ues_item(s);
    lemma_rep_step(f, p, n);
    if xs.len() == 0 {
        assert(xs =~= Seq::empty());
    } else {
        assert(xs =~= xs.drop_last().push(xs.last()));
    }
    if n > 0 {
        if let Ok((done, r)) = rep_at(f, p, (n - 1) as nat) {
            if let Ok((y, z)) = f(done, r) {
                assert(done.push(y).drop_last() =~= done);
            }
        }
    }
}

/// `n` fields of `w` bits stand one behind the other: `n - 1`, and then one more.
pub proof fn law_layout_us(s: Seq<bool>, p: nat, w: nat, n: nat, xs: Seq<u32>, q: nat)
    ensures
        us_at(s, p, w, n) == Ok::<(Seq<u32>, nat), Fault>((xs, q)) <==> if n == 0 {
            xs.len() == 0 && q == p
        } else {
            &&& xs.len() == n
            &&& cursor(s, p)
                .part(|p: nat| us_at(s, p, w, (n - 1) as nat), xs.drop_last())
                .part(|p: nat| Ok((u32_at(s, p, w), adv(p, w))), xs.last())
                .ends(q)
        },
{
    reveal(us_at);
    let f = us_item(s, w);
    lemma_rep_step(f, p, n);
    if xs.len() == 0 {
        assert(xs =~= Seq::empty());
    } else {
        assert(xs =~= xs.drop_last().push(xs.last()));
    }
    if n > 0 {
        if let Ok((done, r)) = rep_at(f, p, (n - 1) as nat) {
            if let Ok((y, z)) = f(done, r) {
                assert(done.push(y).drop_last() =~= done);
            }
        }
    }
}

/// `n` fields of `w` bits stand one behind the other: `n - 1`, and then one more.
pub proof fn law_layout_u8s(s: Seq<bool>, p: nat, w: nat, n: nat, xs: Seq<u8>, q: nat)
    ensures
        u8s_at(s, p, w, n) == Ok::<(Seq<u8>, nat), Fault>((xs, q)) <==> if n == 0 {
            xs.len() == 0 && q == p
        } else {
            &&& xs.len() == n
            &&& cursor(s, p)
                .part(|p: nat| u8s_at(s, p, w, (n - 1) as nat), xs.drop_last())
                .part(|p: nat| Ok((u8_at(s, p, w), adv(p, w))), xs.last())
                .ends(q)
        },
{
    reveal(u8s_at);
    let f = u8s_item(s, w);
    lemma_rep_step(f, p, n);
    if xs.len() == 0 {
        assert(xs =~= Seq::empty());
    } else {
        assert(xs =~= xs.drop_last().push(xs.last()));
    }
    if n > 0 {
        if let Ok((done, r)) = rep_at(f, p, (n - 1) as nat) {
            if let Ok((y, z)) = f(done, r) {
                assert(done.push(y).drop_last() =~= done);
            }
        }
    }
}

/// `n` bits stand one behind the other: `n - 1`, and then one more.
pub proof fn law_layout_bitlist(s: Seq<bool>, p: nat, n: nat, xs: Seq<u8>, q: nat)
    ensures
        bitlist_at(s, p, n) == Ok::<(Seq<u8>, nat), Fault>((xs, q)) <==> if n == 0 {
            xs.len() == 0 && q == p
        } else {
            &&& xs.len() == n
            &&& cursor(s, p)
                .part(|p: nat| bitlist_at(s, p, (n - 1) as nat), xs.drop_last())
                .part(|p: nat| Ok((u8_at(s, p, 1), adv(p, 1))), xs.last())
                .ends(q)
        },
{
    reveal(bitlist_at);
    let f = bitlist_item(s);
    lemma_rep_step(f, p, n);
    if xs.len() == 0 {
        assert(xs =~= Seq::empty());
    } else {
        assert(xs =~= xs.drop_last().push(xs.last()));
    }
    if n > 0 {
        if let Ok((done, r)) = rep_at(f, p, (n - 1) as nat) {
            if let Ok((y, z)) = f(done, r) {
                assert(done.push(y).drop_last() =~= done);
            }
        }
    }
}

/// `n` flags stand one behind the other: `n - 1`, and then one more.
pub proof fn law_layout_flags(s: Seq<bool>, p: nat, n: nat, xs: Seq<bool>, q: nat)
    ensures
        flags_at(s, p, n) == Ok::<(Seq<bool>, nat), Fault>((xs, q)) <==> if n == 0 {
            xs.len() == 0 && q == p
        } else {
            &&& xs.len() == n
            &&& cursor(s, p)
                .part(|p: nat| flags_at(s, p, (n - 1) as nat), xs.drop_last())
                .part(|p: nat| Ok((flag_at(s, p), adv(p, 1))), xs.last())
                .ends(q)
        },
{
    reveal(flags_at);
    let f = flags_item(s);
    lemma_rep_step(f, p, n);
    if xs.len() == 0 {
        assert(xs =~= Seq::empty());
    } else {
        assert(xs =~= xs.drop_last().push(xs.last()));
    }
    if n > 0 {
        if let Ok((done, r)) = rep_at(f, p, (n - 1) as nat) {
            if let Ok((y, z)) = f(done, r) {
                assert(done.push(y).drop_last() =~= done);
            }
        }
    }
}

// ─────────────────────────── Errors ─────────────────────────────────────────

/// An Exp-Golomb code is refused only as invalid.
pub broadcast proof fn law_faults_ue(s: Seq<bool>, p: nat)
    ensures
        #[trigger] ue_at(s, p) matches Err(f) ==> f == Fault::Invalid,
{
    reveal(ue_at);
}

/// A signed Exp-Golomb code is refused only as invalid.
pub broadcast proof fn law_faults_se(s: Seq<bool>, p: nat)
    ensures
        #[trigger] se_at(s, p) matches Err(f) ==> f == Fault::Invalid,
{
    reveal(se_at);
    reveal(ue_at);
}

/// The end of an RBSP is refused as too short or as invalid.
pub broadcast proof fn law_faults_tail(s: Seq<bool>, p: nat, c: bool)
    ensures
        #[trigger] tail_at(s, p, c) matches Err(f) ==> f != Fault::Unsupported,
{
    reveal(tail_at);
}

pub proof fn lemma_rep_faults<T>(
    f: spec_fn(Seq<T>, nat) -> Read<T>,
    p: nat,
    n: nat,
    allowed: spec_fn(Fault) -> bool,
)
    requires
        forall|done: Seq<T>, q: nat| (#[trigger] f(done, q)) matches Err(e) ==> allowed(e),
    ensures
        rep_at(f, p, n) matches Err(e) ==> allowed(e),
    decreases n,
{
    if n > 0 {
        lemma_rep_faults(f, p, (n - 1) as nat, allowed);
    }
}

pub proof fn lemma_rep_faults_none<T>(f: spec_fn(Seq<T>, nat) -> Read<T>, p: nat, n: nat)
    requires
        forall|done: Seq<T>, q: nat| (#[trigger] f(done, q)) is Ok,
    ensures
        rep_at(f, p, n) is Ok,
    decreases n,
{
    if n > 0 {
        lemma_rep_faults_none(f, p, (n - 1) as nat);
    }
}

/// Exp-Golomb codes are refused only as invalid.
pub broadcast proof fn law_faults_ues(s: Seq<bool>, p: nat, n: nat)
    ensures
        #[trigger] ues_at(s, p, n) matches Err(f) ==> f == Fault::Invalid,
{
    broadcast use law_faults_ue;

    reveal(ues_at);
    lemma_rep_faults(ues_item(s), p, n, |f: Fault| f == Fault::Invalid);
}

/// Reading fields never fails.
pub broadcast proof fn law_faults_us(s: Seq<bool>, p: nat, w: nat, n: nat)
    ensures
        #[trigger] us_at(s, p, w, n) is Ok,
{
    reveal(us_at);
    lemma_rep_faults_none(us_item(s, w), p, n);
}

/// Reading fields never fails.
pub broadcast proof fn law_faults_u8s(s: Seq<bool>, p: nat, w: nat, n: nat)
    ensures
        #[trigger] u8s_at(s, p, w, n) is Ok,
{
    reveal(u8s_at);
    lemma_rep_faults_none(u8s_item(s, w), p, n);
}

/// Reading bits never fails.
pub broadcast proof fn law_faults_bitlist(s: Seq<bool>, p: nat, n: nat)
    ensures
        #[trigger] bitlist_at(s, p, n) is Ok,
{
    reveal(bitlist_at);
    lemma_rep_faults_none(bitlist_item(s), p, n);
}

/// Reading flags never fails.
pub broadcast proof fn law_faults_flags(s: Seq<bool>, p: nat, n: nat)
    ensures
        #[trigger] flags_at(s, p, n) is Ok,
{
    reveal(flags_at);
    lemma_rep_faults_none(flags_item(s), p, n);
}

/// The model of a list is the models of its items, and that of an optional value is
/// there if and only if the value is.
pub proof fn law_container_models<V: View>(xs: Seq<V>, i: int, x: V)
    ensures
        seq_view(xs).len() == xs.len(),
        0 <= i < xs.len() ==> seq_view(xs)[i] == xs[i]@,
        opt_view(Some(x)) == Some(x@),
        opt_view::<V>(None) is None,
{
}

/// The numbers that have an Exp-Golomb code: all but the largest of 32 bits, and, with a
/// sign, all but the smallest.
pub proof fn law_code_ranges(v: u32, w: i32)
    ensures
        ue_fits(v as nat) <==> v != 0xffff_ffff,
        se_fits(w as int) <==> w != -0x8000_0000,
{
}

/// The bits that are left from a position on, none behind the end.
pub proof fn law_bits_left(s: Seq<bool>, p: nat)
    ensures
        p <= s.len() ==> p + bits_left(s, p) == s.len(),
        p > s.len() ==> bits_left(s, p) == 0,
{
}

} // verus!
