//! MSB-first bit reader.
//!
//! Reading past the end of the data yields zero bits and keeps counting
//! the position, so that a caller can tell afterwards that the data was
//! too short.
use crate::bits::{
    POS_CAP, Read, adv, adv_if, align_at, align_if, bit_val, bitlist_at, bitlist_item, bits_of,
    fits, flag_at, flag_if, flags_at, flags_item, law_fits_small, law_put_ue_at, law_u16_fits,
    law_u32_fits, law_u8_fits, lemma_bits_of_digit, lemma_bits_of_len, lemma_pow2_le,
    lemma_put_u_shape, lemma_put_u_split, lemma_put_u_zero, lemma_rep_err, lemma_ue_range,
    lemma_uval_bound, more_data, pad_len, put_trailing, put_u, rep_at, se_at, se_if, seq_view,
    trailing_at, u16_at, u16_if, u32_at, u32_if, u8_at, u8_if, u8s_at, u8s_item, ue_at, ue_if,
    ues_at, ues_item, upto, us_at, us_item, uval, zeros_at,
};
use crate::{BitstreamError, Fault};
use vstd::arithmetic::power2::lemma2_to64;
use vstd::bits::lemma_u8_shr_is_div;
use vstd::prelude::*;

verus! {

/// What a parser of a structure promises: the outcome that `want` gives.
pub open spec fn read_is<T>(
    want: Read<T>,
    got: Result<T, BitstreamError>,
    before: BitReader<'_>,
    after: BitReader<'_>,
) -> bool {
    &&& after.bits() == before.bits()
    &&& after.bytes() == before.bytes()
    &&& match want {
        Ok((x, p)) => got == Ok::<T, BitstreamError>(x) && after.pos() == p,
        Err(f) => got matches Err(e) && e.fault() == f,
    }
}

/// [`read_is`] for a structure that has a model.
pub open spec fn read_view_is<V: View>(
    want: Read<V::V>,
    got: Result<V, BitstreamError>,
    before: BitReader<'_>,
    after: BitReader<'_>,
) -> bool {
    &&& after.bits() == before.bits()
    &&& after.bytes() == before.bytes()
    &&& match want {
        Ok((x, p)) => got matches Ok(v) && v@ == x && after.pos() == p,
        Err(f) => got matches Err(e) && e.fault() == f,
    }
}

/// [`read_is`] for a list of plain items.
pub open spec fn read_vec_is<T>(
    want: Read<Seq<T>>,
    got: Result<Vec<T>, BitstreamError>,
    before: BitReader<'_>,
    after: BitReader<'_>,
) -> bool {
    &&& after.bits() == before.bits()
    &&& after.bytes() == before.bytes()
    &&& match want {
        Ok((x, p)) => got matches Ok(v) && v@ == x && after.pos() == p,
        Err(f) => got matches Err(e) && e.fault() == f,
    }
}

/// [`read_is`] for a list of structures that have models.
pub open spec fn read_seq_is<V: View>(
    want: Read<Seq<V::V>>,
    got: Result<Vec<V>, BitstreamError>,
    before: BitReader<'_>,
    after: BitReader<'_>,
) -> bool {
    &&& after.bits() == before.bits()
    &&& after.bytes() == before.bytes()
    &&& match want {
        Ok((x, p)) => got matches Ok(v) && seq_view(v@) == x && after.pos() == p,
        Err(f) => got matches Err(e) && e.fault() == f,
    }
}

/// Reads syntax elements from a byte slice, most significant bit first.
#[derive(Debug, Clone)]
pub struct BitReader<'a> {
    data: &'a [u8],
    pos: u128,
}

impl<'a> BitReader<'a> {
    /// The bits of the data.
    pub closed spec fn bits(&self) -> Seq<bool> {
        bits_of(self.data@)
    }

    /// The bytes of the data.
    pub closed spec fn bytes(&self) -> Seq<u8> {
        self.data@
    }

    /// The position of the next bit.
    pub closed spec fn pos(&self) -> nat {
        self.pos as nat
    }

    /// A reader at the first bit of `data`.
    pub fn new(data: &'a [u8]) -> (r: Self)
        ensures
            r.bits() == bits_of(data@),
            r.bytes() == data@,
            r.pos() == 0,
            r.bits().len() == 8 * data@.len(),
            r.bits().len() < POS_CAP,
    {
        let r = BitReader { data, pos: 0 };
        let _ = r.total_bits();
        r
    }

    /// The number of bits that have been read, those past the end included.
    pub fn bit_pos(&self) -> (n: u128)
        ensures
            n == self.pos(),
    {
        self.pos
    }

    /// The number of bits of the data.
    pub fn total_bits(&self) -> (n: u128)
        ensures
            n == self.bits().len(),
            n == 8 * self.bytes().len(),
            n < POS_CAP,
            self.bits() == bits_of(self.bytes()),
    {
        proof {
            lemma_bits_of_len(self.data@);
        }
        self.data.len() as u128 * 8
    }

    /// The number of bits left, 0 past the end.
    pub fn bits_remaining(&self) -> (n: u128)
        ensures
            n == (if self.pos() < self.bits().len() {
                self.bits().len() - self.pos()
            } else {
                0
            }),
    {
        let total = self.total_bits();
        if self.pos < total {
            total - self.pos
        } else {
            0
        }
    }

    /// Whether the position is a byte boundary.
    pub fn byte_aligned(&self) -> (b: bool)
        ensures
            b == (self.pos() % 8 == 0),
    {
        self.pos % 8 == 0
    }

    /// Whether every bit has been read.
    pub fn at_end(&self) -> (b: bool)
        ensures
            b == (self.pos() >= self.bits().len()),
    {
        self.pos >= self.total_bits()
    }

    /// The bit at position `i` of the data, 0 past the end.
    fn digit(&self, i: u128) -> (d: u32)
        ensures
            d == bit_val(self.bits(), i as nat),
    {
        if i >= self.total_bits() {
            return 0;
        }
        let k: usize = (i / 8) as usize;
        let shift: u8 = 7 - (i % 8) as u8;
        proof {
            lemma_bits_of_digit(self.data@, k as nat, (i % 8) as nat);
            lemma_u8_shr_is_div(self.data@[k as int], shift);
        }
        ((self.data[k] >> shift) % 2) as u32
    }

    /// The bit at position `i` of the data.
    pub(crate) fn bit_at(&self, i: u128) -> (b: bool)
        requires
            i < self.bits().len(),
        ensures
            b == self.bits()[i as int],
    {
        self.digit(i) == 1
    }

    /// Moves `n` bits forward.
    fn advance(&mut self, n: u32)
        ensures
            final(self).bits() == old(self).bits(),
            final(self).bytes() == old(self).bytes(),
            final(self).pos() == adv(old(self).pos(), n as nat),
    {
        proof {
            reveal(adv);
        }
        let room: u128 = if self.pos <= POS_CAP {
            POS_CAP - self.pos
        } else {
            0
        };
        if self.pos <= POS_CAP && n as u128 <= room {
            self.pos = self.pos + n as u128;
        } else {
            self.pos = POS_CAP;
        }
    }

    /// u(n): an unsigned field of `n` bits.
    pub fn u(&mut self, n: u32) -> (v: u32)
        requires
            n <= 32,
        ensures
            final(self).bits() == old(self).bits(),
            final(self).bytes() == old(self).bytes(),
            final(self).pos() == adv(old(self).pos(), n as nat),
            v == u32_at(old(self).bits(), old(self).pos(), n as nat),
            fits(v as nat, n as nat),
    {
        let mut v: u32 = 0;
        let mut i: u32 = 0;
        let total = self.total_bits();
        proof {
            reveal(uval);
        }
        while i < n
            invariant
                i <= n <= 32,
                total == self.bits().len(),
                total < POS_CAP,
                v == uval(self.bits(), self.pos(), i as nat),
            decreases n - i,
        {
            proof {
                reveal(uval);
                lemma_uval_bound(self.bits(), self.pos(), (i + 1) as nat);
                lemma_uval_bound(self.bits(), self.pos(), i as nat);
                lemma_pow2_le((i + 1) as nat, 32);
                lemma2_to64();
            }
            let d: u32 = if self.pos < total {
                self.digit(self.pos + i as u128)
            } else {
                0
            };
            v = v * 2 + d;
            i = i + 1;
        }
        proof {
            reveal(u32_at);
            lemma_uval_bound(self.bits(), self.pos(), n as nat);
        }
        self.advance(n);
        v
    }

    /// u(n) with a result of at most 16 bits.
    pub fn u16(&mut self, n: u32) -> (v: u16)
        requires
            n <= 16,
        ensures
            final(self).bits() == old(self).bits(),
            final(self).bytes() == old(self).bytes(),
            final(self).pos() == adv(old(self).pos(), n as nat),
            v == u16_at(old(self).bits(), old(self).pos(), n as nat),
            fits(v as nat, n as nat),
    {
        proof {
            law_u16_fits(self.bits(), self.pos(), n as nat);
            law_u32_fits(self.bits(), self.pos(), n as nat);
        }
        self.u(n) as u16
    }

    /// u(n) with a result of at most 8 bits.
    pub fn u8(&mut self, n: u32) -> (v: u8)
        requires
            n <= 8,
        ensures
            final(self).bits() == old(self).bits(),
            final(self).bytes() == old(self).bytes(),
            final(self).pos() == adv(old(self).pos(), n as nat),
            v == u8_at(old(self).bits(), old(self).pos(), n as nat),
            fits(v as nat, n as nat),
    {
        proof {
            law_u8_fits(self.bits(), self.pos(), n as nat);
            law_u32_fits(self.bits(), self.pos(), n as nat);
        }
        self.u(n) as u8
    }

    /// u(1) as a number.
    pub fn bit(&mut self) -> (v: u8)
        ensures
            final(self).bits() == old(self).bits(),
            final(self).bytes() == old(self).bytes(),
            final(self).pos() == adv(old(self).pos(), 1),
            v == u8_at(old(self).bits(), old(self).pos(), 1),
            v <= 1,
    {
        proof {
            law_u8_fits(self.bits(), self.pos(), 1);
            law_fits_small(u8_at(self.bits(), self.pos(), 1) as nat, 1);
        }
        self.u8(1)
    }

    /// u(1) as a truth value.
    pub fn flag(&mut self) -> (v: bool)
        ensures
            final(self).bits() == old(self).bits(),
            final(self).bytes() == old(self).bytes(),
            final(self).pos() == adv(old(self).pos(), 1),
            v == flag_at(old(self).bits(), old(self).pos()),
    {
        proof {
            reveal(flag_at);
            law_u8_fits(self.bits(), self.pos(), 1);
            reveal_with_fuel(uval, 2);
        }
        self.u8(1) != 0
    }

    /// u(n) that is coded only if `c`, and is `d` otherwise.
    pub fn u_if(&mut self, n: u32, c: bool, d: u32) -> (v: u32)
        requires
            c ==> n <= 32,
        ensures
            final(self).bits() == old(self).bits(),
            final(self).bytes() == old(self).bytes(),
            final(self).pos() == adv_if(old(self).pos(), n as nat, c),
            v == u32_if(old(self).bits(), old(self).pos(), n as nat, c, d),
            !c ==> v == d,
            c ==> fits(v as nat, n as nat),
    {
        proof {
            reveal(adv_if);
            reveal(u32_if);
        }
        if c {
            self.u(n)
        } else {
            d
        }
    }

    /// u(n) that is coded only if `c`, and is `d` otherwise.
    pub fn u16_if(&mut self, n: u32, c: bool, d: u16) -> (v: u16)
        requires
            c ==> n <= 16,
        ensures
            final(self).bits() == old(self).bits(),
            final(self).bytes() == old(self).bytes(),
            final(self).pos() == adv_if(old(self).pos(), n as nat, c),
            v == u16_if(old(self).bits(), old(self).pos(), n as nat, c, d),
            !c ==> v == d,
            c ==> fits(v as nat, n as nat),
    {
        proof {
            reveal(adv_if);
            reveal(crate::bits::u16_if);
        }
        if c {
            self.u16(n)
        } else {
            d
        }
    }

    /// u(n) that is coded only if `c`, and is `d` otherwise.
    pub fn u8_if(&mut self, n: u32, c: bool, d: u8) -> (v: u8)
        requires
            c ==> n <= 8,
        ensures
            final(self).bits() == old(self).bits(),
            final(self).bytes() == old(self).bytes(),
            final(self).pos() == adv_if(old(self).pos(), n as nat, c),
            v == u8_if(old(self).bits(), old(self).pos(), n as nat, c, d),
            !c ==> v == d,
            c ==> fits(v as nat, n as nat),
    {
        proof {
            reveal(adv_if);
            reveal(crate::bits::u8_if);
        }
        if c {
            self.u8(n)
        } else {
            d
        }
    }

    /// u(1) that is coded only if `c`, and is `d` otherwise.
    pub fn bit_if(&mut self, c: bool, d: u8) -> (v: u8)
        ensures
            final(self).bits() == old(self).bits(),
            final(self).bytes() == old(self).bytes(),
            final(self).pos() == adv_if(old(self).pos(), 1, c),
            v == u8_if(old(self).bits(), old(self).pos(), 1, c, d),
            c ==> v <= 1,
            !c ==> v == d,
    {
        proof {
            reveal(adv_if);
            reveal(crate::bits::u8_if);
        }
        if c {
            self.bit()
        } else {
            d
        }
    }

    /// u(1) that is coded only if `c`, and is `d` otherwise.
    pub fn flag_if(&mut self, c: bool, d: bool) -> (v: bool)
        ensures
            final(self).bits() == old(self).bits(),
            final(self).bytes() == old(self).bytes(),
            final(self).pos() == adv_if(old(self).pos(), 1, c),
            v == flag_if(old(self).bits(), old(self).pos(), c, d),
            !c ==> v == d,
    {
        proof {
            reveal(adv_if);
            reveal(crate::bits::flag_if);
        }
        if c {
            self.flag()
        } else {
            d
        }
    }

    /// ue(v): an unsigned Exp-Golomb code.
    pub fn ue(&mut self) -> (res: Result<u32, BitstreamError>)
        ensures
            final(self).bits() == old(self).bits(),
            final(self).bytes() == old(self).bytes(),
            match ue_at(old(self).bits(), old(self).pos()) {
                Ok((v, p)) => res == Ok::<u32, BitstreamError>(v) && final(self).pos() == p,
                Err(f) => res matches Err(e) && e.fault() == f,
            },
    {
        let ghost s = self.bits();
        let ghost p = self.pos();
        proof {
            reveal(ue_at);
        }
        let total = self.total_bits();
        let mut z: u32 = 0;
        while z < 32 && (self.pos >= total || self.digit(self.pos + z as u128) == 0)
            invariant
                z <= 32,
                s == self.bits(),
                p == self.pos(),
                total == s.len(),
                total < POS_CAP,
                zeros_at(s, p, 32) == z + zeros_at(s, p + z as nat, (32 - z) as nat),
            decreases 32 - z,
        {
            z = z + 1;
        }
        if z >= 32 {
            return Err(BitstreamError::invalid("Exp-Golomb code has too many leading zeros"));
        }
        proof {
            lemma_ue_range(s, p);
        }
        proof {
            reveal(adv);
        }
        self.pos = self.pos + z as u128;
        let k = self.u(z + 1);
        proof {
            law_u32_fits(s, p + z as nat, z as nat + 1);
        }
        Ok(k - 1)
    }

    /// se(v): a signed Exp-Golomb code.
    pub fn se(&mut self) -> (res: Result<i32, BitstreamError>)
        ensures
            final(self).bits() == old(self).bits(),
            final(self).bytes() == old(self).bytes(),
            match se_at(old(self).bits(), old(self).pos()) {
                Ok((v, p)) => res == Ok::<i32, BitstreamError>(v) && final(self).pos() == p,
                Err(f) => res matches Err(e) && e.fault() == f,
            },
    {
        proof {
            reveal(se_at);
            law_put_ue_at(self.bits(), self.pos());
        }
        let k = self.ue()?;
        if k % 2 == 1 {
            Ok(((k + 1) / 2) as i32)
        } else {
            Ok(-((k / 2) as i32))
        }
    }

    /// ue(v) that is coded only if `c`, and is `d` otherwise.
    pub fn ue_if(&mut self, c: bool, d: u32) -> (res: Result<u32, BitstreamError>)
        ensures
            final(self).bits() == old(self).bits(),
            final(self).bytes() == old(self).bytes(),
            !c ==> res == Ok::<u32, BitstreamError>(d),
            match ue_if(old(self).bits(), old(self).pos(), c, d) {
                Ok((v, p)) => res == Ok::<u32, BitstreamError>(v) && final(self).pos() == p,
                Err(f) => res matches Err(e) && e.fault() == f,
            },
    {
        proof {
            reveal(crate::bits::ue_if);
        }
        if c {
            self.ue()
        } else {
            Ok(d)
        }
    }

    /// se(v) that is coded only if `c`, and is `d` otherwise.
    pub fn se_if(&mut self, c: bool, d: i32) -> (res: Result<i32, BitstreamError>)
        ensures
            final(self).bits() == old(self).bits(),
            final(self).bytes() == old(self).bytes(),
            !c ==> res == Ok::<i32, BitstreamError>(d),
            match se_if(old(self).bits(), old(self).pos(), c, d) {
                Ok((v, p)) => res == Ok::<i32, BitstreamError>(v) && final(self).pos() == p,
                Err(f) => res matches Err(e) && e.fault() == f,
            },
    {
        proof {
            reveal(crate::bits::se_if);
        }
        if c {
            self.se()
        } else {
            Ok(d)
        }
    }

    /// Alignment bits: zero bits up to the next byte boundary. The error about a set
    /// bit says `text`.
    pub fn read_align(&mut self, text: &str) -> (res: Result<(), BitstreamError>)
        ensures
            final(self).bits() == old(self).bits(),
            final(self).bytes() == old(self).bytes(),
            match align_at(old(self).bits(), old(self).pos()) {
                Ok(p) => res is Ok && final(self).pos() == p,
                Err(f) => res matches Err(e) && e.fault() == f && e.text() == text@,
            },
    {
        proof {
            reveal(align_at);
            law_u32_fits(self.bits(), self.pos(), pad_len(self.pos()));
        }
        let n: u32 = (8 - (self.pos % 8) as u32) % 8;
        if self.u(n) != 0 {
            return Err(BitstreamError::invalid(text));
        }
        Ok(())
    }

    /// [`BitReader::read_align`] if `c`.
    pub fn read_align_if(&mut self, c: bool, text: &str) -> (res: Result<(), BitstreamError>)
        ensures
            final(self).bits() == old(self).bits(),
            final(self).bytes() == old(self).bytes(),
            match align_if(old(self).bits(), old(self).pos(), c) {
                Ok(p) => res is Ok && final(self).pos() == p,
                Err(f) => res matches Err(e) && e.fault() == f && e.text() == text@,
            },
    {
        proof {
            reveal(align_if);
        }
        if c {
            self.read_align(text)
        } else {
            Ok(())
        }
    }

    /// more_rbsp_data(): whether a set bit follows behind the next one.
    pub fn more_rbsp_data(&self) -> (b: bool)
        ensures
            b == more_data(self.bits(), self.pos()),
    {
        let mut i: u128 = self.total_bits();
        while self.pos < i && i - self.pos > 1
            invariant
                i <= self.bits().len(),
                self.bits().len() < POS_CAP,
                forall|j: int| i <= j < self.bits().len() ==> !#[trigger] self.bits()[j],
            decreases i,
        {
            if self.digit(i - 1) != 0 {
                assert(self.bits()[(i - 1) as int]);
                return true;
            }
            i = i - 1;
        }
        false
    }

    /// rbsp_trailing_bits(): the stop bit and the zero bits up to the byte
    /// boundary, with nothing behind them.
    pub fn read_rbsp_trailing_bits(&mut self) -> (res: Result<(), BitstreamError>)
        ensures
            final(self).bits() == old(self).bits(),
            final(self).bytes() == old(self).bytes(),
            match trailing_at(old(self).bits(), old(self).pos()) {
                Ok(p) => res is Ok && final(self).pos() == p,
                Err(f) => res matches Err(e) && e.fault() == f,
            },
    {
        let ghost s = self.bits();
        let ghost p = self.pos();
        let ghost a = upto(s, p);
        let total = self.total_bits();
        if self.pos >= total {
            return Err(BitstreamError::unexpected_end("rbsp_trailing_bits() is missing"));
        }
        proof {
            reveal(upto);
            lemma_put_u_shape(a.push(true), 0, pad_len(a.len() + 1));
        }
        if self.digit(self.pos) == 0 {
            assert(put_trailing(a)[p as int] == a.push(true)[p as int]);
            return Err(BitstreamError::invalid("rbsp_stop_one_bit is 0"));
        }
        let mut i: u128 = self.pos + 1;
        assert(put_u(a.push(true), 0, 0) == a.push(true)) by {
            reveal(put_u);
        }
        assert(s.take(p as int + 1) =~= a.push(true));
        while i % 8 != 0
            invariant
                s == self.bits(),
                p == self.pos(),
                a == upto(s, p),
                a.len() == p,
                total == s.len(),
                total % 8 == 0,
                total < POS_CAP,
                p + 1 <= i <= p + 1 + pad_len(p + 1),
                i <= total,
                s.take(i as int) == put_u(a.push(true), 0, (i - (p + 1)) as nat),
            decreases p + 9 - i,
        {
            proof {
                lemma_put_u_zero(a.push(true), (i - (p + 1)) as nat);
            }
            if self.digit(i) != 0 {
                proof {
                    let k = (i - p) as nat;
                    let m = (pad_len(p + 1) - k) as nat;
                    lemma2_to64();
                    lemma_put_u_split(a.push(true), 0, k, m);
                    vstd::arithmetic::power2::lemma_pow2_pos(m);
                    lemma_put_u_shape(put_u(a.push(true), 0, k), 0, m);
                    lemma_put_u_shape(a.push(true), 0, (k - 1) as nat);
                    assert(put_u(a.push(true), 0, k)[i as int] == false);
                    assert(put_trailing(a)[i as int] == false);
                }
                return Err(BitstreamError::invalid("rbsp_alignment_zero_bit is 1"));
            }
            assert(s.take(i as int + 1) =~= s.take(i as int).push(s[i as int]));
            i = i + 1;
        }
        if i != total {
            return Err(BitstreamError::invalid("data behind rbsp_trailing_bits()"));
        }
        assert(s.take(i as int) =~= s);
        self.pos = i;
        Ok(())
    }

    /// A list of `n` ue(v) items.
    pub fn read_ues(&mut self, n: u64) -> (res: Result<Vec<u32>, BitstreamError>)
        ensures
            final(self).bits() == old(self).bits(),
            final(self).bytes() == old(self).bytes(),
            res matches Ok(v) ==> v@.len() == n,
            match ues_at(old(self).bits(), old(self).pos(), n as nat) {
                Ok((xs, p)) => res matches Ok(v) && v@ == xs && final(self).pos() == p,
                Err(f) => res matches Err(e) && e.fault() == f,
            },
    {
        let ghost s = self.bits();
        let ghost p = self.pos();
        let ghost f = ues_item(s);
        proof {
            reveal(ues_at);
        }
        let mut xs: Vec<u32> = Vec::new();
        let mut i: u64 = 0;
        while i < n
            invariant
                i <= n,
                xs@.len() == i,
                f == ues_item(s),
                s == self.bits(),
                s == old(self).bits(),
                p == old(self).pos(),
                self.bytes() == old(self).bytes(),
                rep_at(f, p, i as nat) == Ok::<(Seq<u32>, nat), Fault>((xs@, self.pos())),
            decreases n - i,
        {
            let x = match self.ue() {
                Ok(x) => x,
                Err(e) => {
                    proof {
                        reveal(ues_at);
                        lemma_rep_err(f, p, (i + 1) as nat, n as nat);
                    }
                    return Err(e);
                },
            };
            xs.push(x);
            i = i + 1;
        }
        Ok(xs)
    }

    /// A list of `n` u(w) items.
    pub fn read_us(&mut self, n: u64, w: u32) -> (res: Vec<u32>)
        requires
            w <= 32,
        ensures
            final(self).bits() == old(self).bits(),
            final(self).bytes() == old(self).bytes(),
            res@.len() == n,
            us_at(old(self).bits(), old(self).pos(), w as nat, n as nat) == Ok::<(Seq<u32>, nat), Fault>(
                (res@, final(self).pos()),
            ),
    {
        let ghost s = self.bits();
        let ghost p = self.pos();
        let ghost f = us_item(s, w as nat);
        proof {
            reveal(us_at);
        }
        let mut xs: Vec<u32> = Vec::new();
        let mut i: u64 = 0;
        while i < n
            invariant
                i <= n,
                xs@.len() == i,
                w <= 32,
                f == us_item(s, w as nat),
                s == self.bits(),
                s == old(self).bits(),
                p == old(self).pos(),
                self.bytes() == old(self).bytes(),
                rep_at(f, p, i as nat) == Ok::<(Seq<u32>, nat), Fault>((xs@, self.pos())),
            decreases n - i,
        {
            let x = self.u(w);
            xs.push(x);
            i = i + 1;
        }
        xs
    }

    /// A list of `n` u(w) items of at most 8 bits.
    pub fn read_u8s(&mut self, n: u64, w: u32) -> (res: Vec<u8>)
        requires
            w <= 8,
        ensures
            final(self).bits() == old(self).bits(),
            final(self).bytes() == old(self).bytes(),
            res@.len() == n,
            u8s_at(old(self).bits(), old(self).pos(), w as nat, n as nat) == Ok::<(Seq<u8>, nat), Fault>(
                (res@, final(self).pos()),
            ),
    {
        let ghost s = self.bits();
        let ghost p = self.pos();
        let ghost f = u8s_item(s, w as nat);
        proof {
            reveal(u8s_at);
        }
        let mut xs: Vec<u8> = Vec::new();
        let mut i: u64 = 0;
        while i < n
            invariant
                i <= n,
                xs@.len() == i,
                w <= 8,
                f == u8s_item(s, w as nat),
                s == self.bits(),
                s == old(self).bits(),
                p == old(self).pos(),
                self.bytes() == old(self).bytes(),
                rep_at(f, p, i as nat) == Ok::<(Seq<u8>, nat), Fault>((xs@, self.pos())),
            decreases n - i,
        {
            let x = self.u8(w);
            xs.push(x);
            i = i + 1;
        }
        xs
    }

    /// A list of `n` u(1) items as numbers.
    pub fn read_bitlist(&mut self, n: u64) -> (res: Vec<u8>)
        ensures
            final(self).bits() == old(self).bits(),
            final(self).bytes() == old(self).bytes(),
            res@.len() == n,
            bitlist_at(old(self).bits(), old(self).pos(), n as nat) == Ok::<(Seq<u8>, nat), Fault>(
                (res@, final(self).pos()),
            ),
    {
        let ghost s = self.bits();
        let ghost p = self.pos();
        let ghost f = bitlist_item(s);
        proof {
            reveal(bitlist_at);
        }
        let mut xs: Vec<u8> = Vec::new();
        let mut i: u64 = 0;
        while i < n
            invariant
                i <= n,
                xs@.len() == i,
                f == bitlist_item(s),
                s == self.bits(),
                s == old(self).bits(),
                p == old(self).pos(),
                self.bytes() == old(self).bytes(),
                rep_at(f, p, i as nat) == Ok::<(Seq<u8>, nat), Fault>((xs@, self.pos())),
            decreases n - i,
        {
            let x = self.bit();
            xs.push(x);
            i = i + 1;
        }
        xs
    }

    /// A list of `n` u(1) items as truth values.
    pub fn read_flags(&mut self, n: u64) -> (res: Vec<bool>)
        ensures
            final(self).bits() == old(self).bits(),
            final(self).bytes() == old(self).bytes(),
            res@.len() == n,
            flags_at(old(self).bits(), old(self).pos(), n as nat) == Ok::<(Seq<bool>, nat), Fault>(
                (res@, final(self).pos()),
            ),
    {
        let ghost s = self.bits();
        let ghost p = self.pos();
        let ghost f = flags_item(s);
        proof {
            reveal(flags_at);
        }
        let mut xs: Vec<bool> = Vec::new();
        let mut i: u64 = 0;
        while i < n
            invariant
                i <= n,
                xs@.len() == i,
                f == flags_item(s),
                s == self.bits(),
                s == old(self).bits(),
                p == old(self).pos(),
                self.bytes() == old(self).bytes(),
                rep_at(f, p, i as nat) == Ok::<(Seq<bool>, nat), Fault>((xs@, self.pos())),
            decreases n - i,
        {
            let x = self.flag();
            xs.push(x);
            i = i + 1;
        }
        xs
    }
}

} // verus!
