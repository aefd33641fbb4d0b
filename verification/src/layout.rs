//! What stands where in a bit stream.
//!
//! A [`Cursor`] walks over a bit string and keeps whether every element that it
//! passed was the one that was named. The laws on the structures of this crate
//! use it to say, for each structure, which elements it is made of, in which
//! order they stand, and which of them are left out when.
use crate::bits::{
    Read, adv, align_at, align_if, bits_left, flag_at, flag_if, se_at, se_if, u16_at, u16_if,
    u32_at, u32_if, u8_at, u8_if, ue_at, ue_if,
};
use crate::Fault;
use vstd::prelude::*;

verus! {

/// A position in a bit string, and whether all elements up to it were as named.
pub struct Cursor {
    pub bits: Seq<bool>,
    pub pos: nat,
    pub good: bool,
}

/// The cursor at position `p` of `s`.
pub open spec fn cursor(s: Seq<bool>, p: nat) -> Cursor {
    Cursor { bits: s, pos: p, good: true }
}

impl Cursor {
    /// Every element was as named, and the last one ends at `q`.
    pub open spec fn ends(self, q: nat) -> bool {
        self.good && self.pos == q
    }

    /// `n` bits of any value.
    pub open spec fn skip(self, n: nat) -> Cursor {
        Cursor { pos: adv(self.pos, n), ..self }
    }

    /// `n` bits of any value if `c`, else nothing.
    pub open spec fn skip_if(self, c: bool, n: nat) -> Cursor {
        if c {
            self.skip(n)
        } else {
            self
        }
    }

    /// `good` if `b`.
    pub open spec fn and(self, b: bool) -> Cursor {
        Cursor { good: self.good && b, ..self }
    }

    /// The next bit is `v`.
    pub open spec fn flag(self, v: bool) -> Cursor {
        self.and(v == flag_at(self.bits, self.pos)).skip(1)
    }

    /// The next bit is `v` if `c`, else `v` is `d`.
    pub open spec fn flag_if(self, c: bool, v: bool, d: bool) -> Cursor {
        if c {
            self.flag(v)
        } else {
            self.and(v == d)
        }
    }

    /// The next `n` bits are the number `v`.
    pub open spec fn u8(self, n: nat, v: u8) -> Cursor {
        self.and(v == u8_at(self.bits, self.pos, n)).skip(n)
    }

    /// The next `n` bits are the number `v` if `c`, else `v` is `d`.
    pub open spec fn u8_if(self, c: bool, n: nat, v: u8, d: u8) -> Cursor {
        if c {
            self.u8(n, v)
        } else {
            self.and(v == d)
        }
    }

    /// The next `n` bits are the number `v`.
    pub open spec fn u16(self, n: nat, v: u16) -> Cursor {
        self.and(v == u16_at(self.bits, self.pos, n)).skip(n)
    }

    /// The next `n` bits are the number `v` if `c`, else `v` is `d`.
    pub open spec fn u16_if(self, c: bool, n: nat, v: u16, d: u16) -> Cursor {
        if c {
            self.u16(n, v)
        } else {
            self.and(v == d)
        }
    }

    /// The next `n` bits are the number `v`.
    pub open spec fn u32(self, n: nat, v: u32) -> Cursor {
        self.and(v == u32_at(self.bits, self.pos, n)).skip(n)
    }

    /// The next `n` bits are the number `v` if `c`, else `v` is `d`.
    pub open spec fn u32_if(self, c: bool, n: nat, v: u32, d: u32) -> Cursor {
        if c {
            self.u32(n, v)
        } else {
            self.and(v == d)
        }
    }

    /// What `f` reads next is `v`.
    pub open spec fn part<T>(self, f: spec_fn(nat) -> Read<T>, v: T) -> Cursor {
        match f(self.pos) {
            Ok((w, q)) => Cursor { pos: q, ..self.and(v == w) },
            Err(_) => self.and(false),
        }
    }

    /// `f` reads something next, whatever it is.
    pub open spec fn any<T>(self, f: spec_fn(nat) -> Read<T>) -> Cursor {
        match f(self.pos) {
            Ok((_, q)) => Cursor { pos: q, ..self },
            Err(_) => self.and(false),
        }
    }

    /// What `f` reads next is `v` if `c`, else there is no `v`.
    pub open spec fn part_if<T>(self, c: bool, f: spec_fn(nat) -> Read<T>, v: Option<T>) -> Cursor {
        match v {
            Some(w) => self.and(c).part(f, w),
            None => self.and(!c),
        }
    }

    /// What `f` reads next is `v` if `c`, else `v` is `d`.
    pub open spec fn part_or<T>(self, c: bool, f: spec_fn(nat) -> Read<T>, v: T, d: T) -> Cursor {
        if c {
            self.part(f, v)
        } else {
            self.and(v == d)
        }
    }

    /// A bit that tells whether there is a `v`, and then what `f` reads.
    pub open spec fn flagged<T>(self, f: spec_fn(nat) -> Read<T>, v: Option<T>) -> Cursor {
        self.flag(v is Some).part_if(v is Some, f, v)
    }

    /// [`Cursor::flagged`] if `c`, else there is no `v`.
    pub open spec fn flagged_if<T>(self, c: bool, f: spec_fn(nat) -> Read<T>, v: Option<T>) -> Cursor {
        if c {
            self.flagged(f, v)
        } else {
            self.and(v is None)
        }
    }

    /// The next element is the ue(v) code of `v`.
    pub open spec fn ue(self, v: u32) -> Cursor {
        match ue_at(self.bits, self.pos) {
            Ok((w, q)) => Cursor { pos: q, ..self.and(v == w) },
            Err(_) => self.and(false),
        }
    }

    /// The next element is the ue(v) code of `v` if `c`, else `v` is `d`.
    pub open spec fn ue_if(self, c: bool, v: u32, d: u32) -> Cursor {
        if c {
            self.ue(v)
        } else {
            self.and(v == d)
        }
    }

    /// The next element is the se(v) code of `v`.
    pub open spec fn se(self, v: i32) -> Cursor {
        match se_at(self.bits, self.pos) {
            Ok((w, q)) => Cursor { pos: q, ..self.and(v == w) },
            Err(_) => self.and(false),
        }
    }

    /// The next element is the se(v) code of `v` if `c`, else `v` is `d`.
    pub open spec fn se_if(self, c: bool, v: i32, d: i32) -> Cursor {
        if c {
            self.se(v)
        } else {
            self.and(v == d)
        }
    }

    /// The value of the ue(v) code that stands next.
    pub open spec fn next_ue(self) -> u32 {
        match ue_at(self.bits, self.pos) {
            Ok((v, _)) => v,
            Err(_) => 0,
        }
    }

    /// The value of the se(v) code that stands next.
    pub open spec fn next_se(self) -> i32 {
        match se_at(self.bits, self.pos) {
            Ok((v, _)) => v,
            Err(_) => 0,
        }
    }

    /// The value that `f` reads next.
    pub open spec fn next<T>(self, f: spec_fn(nat) -> Read<T>) -> T
        recommends
            f(self.pos) is Ok,
    {
        f(self.pos)->Ok_0.0
    }

    /// The value of the next `n` bits.
    pub open spec fn next_u8(self, n: nat) -> u8 {
        u8_at(self.bits, self.pos, n)
    }

    /// The value of the next `n` bits.
    pub open spec fn next_u32(self, n: nat) -> u32 {
        u32_at(self.bits, self.pos, n)
    }

    /// The next bit.
    pub open spec fn next_flag(self) -> bool {
        flag_at(self.bits, self.pos)
    }

    /// Zero bits up to the next byte boundary.
    pub open spec fn align(self) -> Cursor {
        match align_at(self.bits, self.pos) {
            Ok(q) => Cursor { pos: q, ..self },
            Err(_) => self.and(false),
        }
    }

    /// [`Cursor::align`] if `c`, else nothing.
    pub open spec fn align_if(self, c: bool) -> Cursor {
        if c {
            self.align()
        } else {
            self
        }
    }

    /// At least `n` bits are left.
    pub open spec fn room(self, n: int) -> Cursor {
        self.and(n <= bits_left(self.bits, self.pos))
    }
}

} // verus!
