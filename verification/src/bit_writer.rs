//! MSB-first bit writer, the inverse of [`crate::bit_reader`].
use crate::bits::{
    bits_of, fits, lemma_bits_of_push, lemma_log2, lemma_pow2_le, lemma_put_u_shape,
    lemma_put_u_split, lemma_put_u_zero, lemma_put_uval, lemma_uval_bound, log2, pad, pad_len,
    put_align, put_align_if, put_bit, put_bit_if, put_bitlist, put_bitlist_item, put_flag,
    put_flag_if, put_flags, put_flags_item, put_rep, put_se, put_se_if, put_trailing, put_u,
    put_u8s, put_u8s_item, put_u_if, put_ue, put_ue_if, put_ues, put_ues_item, put_us,
    put_us_item, se_fits, ue_fits, ues_ok, us_ok, uval,
};
use crate::message::Message;
use crate::{BitstreamError, Fault};
use vstd::arithmetic::div_mod::{lemma_basic_div, lemma_div_denominator, lemma_div_non_zero};
use vstd::arithmetic::power2::{lemma2_to64, lemma_pow2_pos, lemma_pow2_unfold, pow2};
use vstd::bits::lemma_u32_shr_is_div;
use vstd::prelude::*;

verus! {

/// What a writer of a structure promises: it succeeds if and only if `can`, and
/// then leaves the bits `want`.
pub open spec fn write_is(
    can: bool,
    want: Seq<bool>,
    got: Result<(), BitstreamError>,
    after: Seq<bool>,
) -> bool {
    match got {
        Ok(()) => can && after == want,
        Err(e) => !can && e.fault() == Fault::Invalid,
    }
}

/// Whether `v` can be written in `n` bits.
pub fn fits_bits(v: u32, n: u32) -> (b: bool)
    ensures
        b == fits(v as nat, n as nat),
{
    if n >= 32 {
        proof {
            lemma2_to64();
            lemma_pow2_le(32, n as nat);
        }
        return true;
    }
    proof {
        lemma_u32_shr_is_div(v, n);
        lemma_pow2_pos(n as nat);
        if (v as nat) < pow2(n as nat) {
            lemma_basic_div(v as int, pow2(n as nat) as int);
        } else {
            lemma_div_non_zero(v as int, pow2(n as nat) as int);
        }
    }
    (v >> n) == 0
}

/// Whether every item of `xs` can be written in `n` bits.
pub fn us_fit(xs: &[u32], n: u32) -> (b: bool)
    ensures
        b == us_ok(xs@, n as nat),
{
    let mut i: usize = 0;
    while i < xs.len()
        invariant
            i <= xs@.len(),
            forall|j: int| 0 <= j < i ==> fits(#[trigger] xs@[j] as nat, n as nat),
        decreases xs@.len() - i,
    {
        if !fits_bits(xs[i], n) {
            assert(!fits(xs@[i as int] as nat, n as nat));
            return false;
        }
        i = i + 1;
    }
    true
}

/// The error about the first item of `xs`, called `name`, that does not fit `n` bits.
pub(crate) fn unfit_error(name: &str, xs: &[u32], n: u32) -> (e: BitstreamError)
    ensures
        e.fault() == Fault::Invalid,
{
    let mut i: usize = 0;
    while i < xs.len() && fits_bits(xs[i], n)
        invariant
            i <= xs@.len(),
        decreases xs@.len() - i,
    {
        i = i + 1;
    }
    let v: u32 = if i < xs.len() {
        xs[i]
    } else {
        0
    };
    Message::new("")
        .with(name)
        .with(" = ")
        .num(v as i128)
        .with(" does not fit u(")
        .num(n as i128)
        .with(")")
        .invalid()
}

/// Collects syntax elements as bits, most significant bit first.
#[derive(Debug, Clone, Default)]
pub struct BitWriter {
    bits: Vec<bool>,
}

impl View for BitWriter {
    type V = Seq<bool>;

    closed spec fn view(&self) -> Seq<bool> {
        self.bits@
    }
}

impl BitWriter {
    /// A writer that holds no bits.
    pub fn new() -> (w: Self)
        ensures
            w@ == Seq::<bool>::empty(),
    {
        BitWriter { bits: Vec::new() }
    }

    /// Whether the bits so far end at a byte boundary.
    pub fn byte_aligned(&self) -> (b: bool)
        ensures
            b == (self@.len() % 8 == 0),
    {
        self.bits.len() % 8 == 0
    }

    /// u(1): set if `v` is not zero.
    pub fn write_bit(&mut self, v: u32)
        ensures
            final(self)@ == put_bit(old(self)@, v as nat),
    {
        proof {
            reveal(put_bit);
        }
        self.bits.push(v != 0);
    }

    /// u(1).
    pub fn write_flag(&mut self, b: bool)
        ensures
            final(self)@ == put_flag(old(self)@, b),
    {
        proof {
            reveal(put_flag);
        }
        self.bits.push(b);
    }

    /// u(n): the low `n` bits of `v`.
    pub fn write_bits(&mut self, v: u32, n: u32)
        requires
            n <= 32,
        ensures
            final(self)@ == put_u(old(self)@, v as nat, n as nat),
    {
        let ghost a = self@;
        let mut i: u32 = 0;
        proof {
            reveal(put_u);
            lemma_pow2_pos(n as nat);
            assert(put_u(a, v as nat / pow2((n - i) as nat), 0) == a);
        }
        while i < n
            invariant
                i <= n <= 32,
                a == old(self)@,
                self@ == put_u(a, v as nat / pow2((n - i) as nat), i as nat),
            decreases n - i,
        {
            let shift: u32 = n - i - 1;
            proof {
                reveal(put_u);
                lemma_u32_shr_is_div(v, shift);
                lemma_pow2_unfold((n - i) as nat);
                lemma_pow2_pos(shift as nat);
                lemma_div_denominator(v as int, pow2(shift as nat) as int, 2);
            }
            self.bits.push((v >> shift) % 2 == 1);
            i = i + 1;
        }
        proof {
            lemma2_to64();
            assert((n - i) as nat == 0);
            assert(v as nat / 1 == v as nat);
        }
    }

    /// u(n) that is coded only if `c`.
    pub fn write_bits_if(&mut self, v: u32, n: u32, c: bool)
        requires
            c ==> n <= 32,
        ensures
            final(self)@ == put_u_if(old(self)@, v as nat, n as nat, c),
    {
        proof {
            reveal(put_u_if);
        }
        if c {
            self.write_bits(v, n);
        }
    }

    /// u(1) that is coded only if `c`.
    pub fn write_bit_if(&mut self, v: u32, c: bool)
        ensures
            final(self)@ == put_bit_if(old(self)@, v as nat, c),
    {
        proof {
            reveal(put_bit_if);
        }
        if c {
            self.write_bit(v);
        }
    }

    /// u(1) that is coded only if `c`.
    pub fn write_flag_if(&mut self, b: bool, c: bool)
        ensures
            final(self)@ == put_flag_if(old(self)@, b, c),
    {
        proof {
            reveal(put_flag_if);
        }
        if c {
            self.write_flag(b);
        }
    }

    /// ue(v). The largest `u32` has no code.
    pub fn write_ue(&mut self, v: u32) -> (res: Result<(), BitstreamError>)
        ensures
            res is Ok <==> ue_fits(v as nat),
            res is Ok ==> final(self)@ == put_ue(old(self)@, v as nat),
            res matches Err(e) ==> e.fault() == Fault::Invalid && final(self)@ == old(self)@,
    {
        if v == 0xffff_ffff {
            return Err(BitstreamError::invalid("value has no ue(v) code"));
        }
        let ghost a = self@;
        let k: u32 = v + 1;
        let mut z: u32 = 0;
        let mut t: u32 = k;
        proof {
            lemma2_to64();
            lemma_log2(k as nat);
            if log2(k as nat) >= 32 {
                lemma_pow2_le(32, log2(k as nat));
            }
        }
        while t > 1
            invariant
                1 <= t,
                log2(k as nat) == z + log2(t as nat),
                z + log2(t as nat) < 32,
            decreases t,
        {
            t = t / 2;
            z = z + 1;
        }
        proof {
            lemma_log2(k as nat);
            lemma_put_u_split(a, k as nat, z as nat, (z + 1) as nat);
            lemma_basic_div(k as int, pow2((z + 1) as nat) as int);
            reveal(put_ue);
            assert(z + (z + 1) == 2 * z + 1);
        }
        self.write_bits(0, z);
        self.write_bits(k, z + 1);
        Ok(())
    }

    /// se(v). The smallest `i32` has no code.
    pub fn write_se(&mut self, v: i32) -> (res: Result<(), BitstreamError>)
        ensures
            res is Ok <==> se_fits(v as int),
            res is Ok ==> final(self)@ == put_se(old(self)@, v as int),
            res matches Err(e) ==> e.fault() == Fault::Invalid && final(self)@ == old(self)@,
    {
        if v == i32::MIN {
            return Err(BitstreamError::invalid("value has no se(v) code"));
        }
        proof {
            reveal(put_se);
        }
        let k: u32 = if v > 0 {
            v as u32 * 2 - 1
        } else {
            (-v) as u32 * 2
        };
        self.write_ue(k)
    }

    /// ue(v) that is coded only if `c`.
    pub fn write_ue_if(&mut self, v: u32, c: bool) -> (res: Result<(), BitstreamError>)
        ensures
            res is Ok <==> (c ==> ue_fits(v as nat)),
            res is Ok ==> final(self)@ == put_ue_if(old(self)@, v as nat, c),
            res matches Err(e) ==> e.fault() == Fault::Invalid && final(self)@ == old(self)@,
    {
        proof {
            reveal(put_ue_if);
        }
        if c {
            self.write_ue(v)
        } else {
            Ok(())
        }
    }

    /// se(v) that is coded only if `c`.
    pub fn write_se_if(&mut self, v: i32, c: bool) -> (res: Result<(), BitstreamError>)
        ensures
            res is Ok <==> (c ==> se_fits(v as int)),
            res is Ok ==> final(self)@ == put_se_if(old(self)@, v as int, c),
            res matches Err(e) ==> e.fault() == Fault::Invalid && final(self)@ == old(self)@,
    {
        proof {
            reveal(put_se_if);
        }
        if c {
            self.write_se(v)
        } else {
            Ok(())
        }
    }

    /// Zero bits up to the next byte boundary.
    pub fn align_to_byte(&mut self)
        ensures
            final(self)@ == put_align(old(self)@),
    {
        let ghost a = self@;
        proof {
            reveal(put_u);
        }
        let mut i: u32 = 0;
        while self.bits.len() % 8 != 0
            invariant
                a == old(self)@,
                self@ == put_u(a, 0, i as nat),
                self@.len() == a.len() + i,
                i <= pad_len(a.len()),
            decreases pad_len(a.len()) - i,
        {
            proof {
                lemma_put_u_zero(a, i as nat);
            }
            self.bits.push(false);
            i = i + 1;
        }
        proof {
            lemma_put_u_shape(a, 0, i as nat);
            reveal(put_align);
        }
    }

    /// [`BitWriter::align_to_byte`] if `c`.
    pub fn write_align_if(&mut self, c: bool)
        ensures
            final(self)@ == put_align_if(old(self)@, c),
    {
        proof {
            reveal(put_align_if);
        }
        if c {
            self.align_to_byte();
        }
    }

    /// rbsp_trailing_bits(): a one bit, and zero bits up to the next byte
    /// boundary.
    pub fn write_rbsp_trailing_bits(&mut self)
        ensures
            final(self)@ == put_trailing(old(self)@),
    {
        proof {
            reveal(put_align);
        }
        self.bits.push(true);
        self.align_to_byte();
    }

    /// The bytes whose bits were written, the last one filled up with zeros.
    pub fn finish(self) -> (out: Vec<u8>)
        ensures
            bits_of(out@) == pad(self@),
    {
        let mut w = self;
        proof {
            reveal(put_align);
        }
        w.align_to_byte();
        let ghost s = w@;
        proof {
            lemma_put_u_shape(self@, 0, pad_len(self@.len()));
        }
        let total: usize = w.bits.len();
        let mut out: Vec<u8> = Vec::new();
        let mut i: usize = 0;
        proof {
            assert(s.take(0) =~= Seq::<bool>::empty());
        }
        while i < total
            invariant
                i <= total,
                total == s.len(),
                s == w@,
                total % 8 == 0,
                i % 8 == 0,
                bits_of(out@) == s.take(i as int),
            decreases total - i,
        {
            let mut v: u8 = 0;
            let mut k: usize = 0;
            proof {
                reveal(uval);
            }
            while k < 8
                invariant
                    k <= 8,
                    i + 8 <= total,
                    total == s.len(),
                    s == w@,
                    v == uval(s, i as nat, k as nat),
                decreases 8 - k,
            {
                proof {
                    reveal(uval);
                    lemma_uval_bound(s, i as nat, (k + 1) as nat);
                    lemma_pow2_le((k + 1) as nat, 8);
                    lemma2_to64();
                }
                let d: u8 = if w.bits[i + k] {
                    1
                } else {
                    0
                };
                v = v * 2 + d;
                k = k + 1;
            }
            proof {
                lemma_bits_of_push(out@, v);
                lemma_put_uval(s, i as nat, 8);
            }
            out.push(v);
            i = i + 8;
        }
        proof {
            assert(s.take(i as int) =~= s);
        }
        out
    }

    /// A list of ue(v) items.
    pub fn write_ues(&mut self, xs: &[u32]) -> (res: Result<(), BitstreamError>)
        ensures
            res is Ok <==> ues_ok(xs@),
            res is Ok ==> final(self)@ == put_ues(old(self)@, xs@),
            res matches Err(e) ==> e.fault() == Fault::Invalid,
    {
        let ghost a = self@;
        let ghost g = put_ues_item();
        proof {
            reveal(put_ues);
            assert(xs@.take(0) =~= Seq::empty());
        }
        let mut i: usize = 0;
        while i < xs.len()
            invariant
                i <= xs@.len(),
                g == put_ues_item(),
                self@ == put_rep(g, a, xs@.take(i as int)),
                forall|j: int| 0 <= j < i ==> ue_fits(#[trigger] xs@[j] as nat),
            decreases xs@.len() - i,
        {
            proof {
                assert(xs@.take(i + 1).drop_last() =~= xs@.take(i as int));
            }
            self.write_ue(xs[i])?;
            i = i + 1;
        }
        proof {
            assert(xs@.take(i as int) =~= xs@);
        }
        Ok(())
    }

    /// A list of u(w) items.
    pub fn write_us(&mut self, xs: &[u32], w: u32)
        requires
            w <= 32,
        ensures
            final(self)@ == put_us(old(self)@, xs@, w as nat),
    {
        let ghost a = self@;
        let ghost g = put_us_item(w as nat);
        proof {
            reveal(put_us);
            assert(xs@.take(0) =~= Seq::empty());
        }
        let mut i: usize = 0;
        while i < xs.len()
            invariant
                i <= xs@.len(),
                w <= 32,
                g == put_us_item(w as nat),
                self@ == put_rep(g, a, xs@.take(i as int)),
            decreases xs@.len() - i,
        {
            proof {
                assert(xs@.take(i + 1).drop_last() =~= xs@.take(i as int));
            }
            self.write_bits(xs[i], w);
            i = i + 1;
        }
        proof {
            assert(xs@.take(i as int) =~= xs@);
        }
    }

    /// A list of u(w) items of at most 8 bits.
    pub fn write_u8s(&mut self, xs: &[u8], w: u32)
        requires
            w <= 8,
        ensures
            final(self)@ == put_u8s(old(self)@, xs@, w as nat),
    {
        let ghost a = self@;
        let ghost g = put_u8s_item(w as nat);
        proof {
            reveal(put_u8s);
            assert(xs@.take(0) =~= Seq::empty());
        }
        let mut i: usize = 0;
        while i < xs.len()
            invariant
                i <= xs@.len(),
                w <= 8,
                g == put_u8s_item(w as nat),
                self@ == put_rep(g, a, xs@.take(i as int)),
            decreases xs@.len() - i,
        {
            proof {
                assert(xs@.take(i + 1).drop_last() =~= xs@.take(i as int));
            }
            self.write_bits(xs[i] as u32, w);
            i = i + 1;
        }
        proof {
            assert(xs@.take(i as int) =~= xs@);
        }
    }

    /// A list of u(1) items as numbers.
    pub fn write_bitlist(&mut self, xs: &[u8])
        ensures
            final(self)@ == put_bitlist(old(self)@, xs@),
    {
        let ghost a = self@;
        let ghost g = put_bitlist_item();
        proof {
            reveal(put_bitlist);
            assert(xs@.take(0) =~= Seq::empty());
        }
        let mut i: usize = 0;
        while i < xs.len()
            invariant
                i <= xs@.len(),
                g == put_bitlist_item(),
                self@ == put_rep(g, a, xs@.take(i as int)),
            decreases xs@.len() - i,
        {
            proof {
                assert(xs@.take(i + 1).drop_last() =~= xs@.take(i as int));
            }
            self.write_bit(xs[i] as u32);
            i = i + 1;
        }
        proof {
            assert(xs@.take(i as int) =~= xs@);
        }
    }

    /// A list of u(1) items as truth values.
    pub fn write_flags(&mut self, xs: &[bool])
        ensures
            final(self)@ == put_flags(old(self)@, xs@),
    {
        let ghost a = self@;
        let ghost g = put_flags_item();
        proof {
            reveal(put_flags);
            assert(xs@.take(0) =~= Seq::empty());
        }
        let mut i: usize = 0;
        while i < xs.len()
            invariant
                i <= xs@.len(),
                g == put_flags_item(),
                self@ == put_rep(g, a, xs@.take(i as int)),
            decreases xs@.len() - i,
        {
            proof {
                assert(xs@.take(i + 1).drop_last() =~= xs@.take(i as int));
            }
            self.write_flag(xs[i]);
            i = i + 1;
        }
        proof {
            assert(xs@.take(i as int) =~= xs@);
        }
    }
}

} // verus!
