//! Shared NAL-unit byte-level helpers.
//!
//! H.264, H.265 (HEVC) and H.266 (VVC) all use the same byte stuffing
//! rule to prevent payload bytes from accidentally forming a start-code
//! prefix: any `0x00 0x00 0x0X` triplet with `X` at most 3 inside the NAL
//! payload is escaped by inserting an `emulation_prevention_three_byte`
//! (`0x03`) between the two zeros and the third byte. Stripping that
//! byte recovers the raw byte sequence payload (RBSP) from the
//! encapsulated byte sequence payload (EBSP).
use crate::bits::{lemma_seq_view_push, seq_view};
use crate::message::Message;
use crate::{BitstreamError, Fault};
use vstd::prelude::*;
use vstd::slice::slice_subrange;

verus! {

// ─────────────────────────── Emulation prevention ───────────────────────────

/// The RBSP of an EBSP: every `0x03` behind two zero bytes is dropped.
pub open spec fn unescape(e: Seq<u8>) -> Seq<u8>
    decreases e.len(),
{
    if e.len() >= 3 && e[0] == 0 && e[1] == 0 && e[2] == 3 {
        seq![0u8, 0u8] + unescape(e.skip(3))
    } else if e.len() > 0 {
        seq![e[0]] + unescape(e.skip(1))
    } else {
        Seq::empty()
    }
}

/// The number of zero bytes at the end, counted up to 2, when `b` follows
/// `z` of them.
pub open spec fn zero_run(z: nat, b: u8) -> nat {
    if b != 0 {
        0
    } else if z >= 1 {
        2
    } else {
        1
    }
}

/// The EBSP of an RBSP that follows `z` zero bytes: a `0x03` goes in front of
/// every byte of at most 3 that follows two zero bytes, and behind two zero
/// bytes at the end.
pub open spec fn escape(r: Seq<u8>, z: nat) -> Seq<u8>
    decreases r.len(),
{
    if r.len() == 0 {
        if z >= 2 {
            seq![3u8]
        } else {
            Seq::empty()
        }
    } else if z >= 2 && r[0] <= 3 {
        seq![3u8, r[0]] + escape(r.skip(1), zero_run(0, r[0]))
    } else {
        seq![r[0]] + escape(r.skip(1), zero_run(z, r[0]))
    }
}

/// Strip `emulation_prevention_three_byte` (`0x03`) bytes from an EBSP
/// to produce an RBSP: whenever a `0x00 0x00 0x03` triple is seen, the
/// `0x03` is dropped.
pub fn ebsp_to_rbsp(ebsp: &[u8]) -> (out: Vec<u8>)
    ensures
        out@ == unescape(ebsp@),
        out@.len() <= ebsp@.len(),
{
    let n: usize = ebsp.len();
    let mut out: Vec<u8> = Vec::with_capacity(n);
    let mut i: usize = 0;
    proof {
        assert(ebsp@.skip(0) =~= ebsp@);
    }
    while i < n
        invariant
            i <= n,
            n == ebsp@.len(),
            out@ + unescape(ebsp@.skip(i as int)) == unescape(ebsp@),
            out@.len() <= i,
        decreases n - i,
    {
        let ghost rest = ebsp@.skip(i as int);
        if n - i > 2 && ebsp[i] == 0 && ebsp[i + 1] == 0 && ebsp[i + 2] == 3 {
            proof {
                assert(rest.skip(3) =~= ebsp@.skip(i + 3));
                assert(out@.push(0).push(0) + unescape(rest.skip(3)) =~= out@ + (seq![0u8, 0u8]
                    + unescape(rest.skip(3))));
            }
            out.push(0);
            out.push(0);
            i = i + 3;
        } else {
            proof {
                assert(rest.skip(1) =~= ebsp@.skip(i + 1));
                assert(out@.push(rest[0]) + unescape(rest.skip(1)) =~= out@ + (seq![rest[0]]
                    + unescape(rest.skip(1))));
            }
            out.push(ebsp[i]);
            i = i + 1;
        }
    }
    proof {
        assert(out@ + Seq::<u8>::empty() =~= out@);
    }
    out
}

/// Insert `emulation_prevention_three_byte` (`0x03`) bytes into an RBSP
/// to produce an EBSP, the inverse of [`ebsp_to_rbsp`].
///
/// Whenever the writer is about to emit a byte that is `0x00`, `0x01`,
/// `0x02` or `0x03` **immediately after** an existing `0x00 0x00`
/// suffix in the output, an `0x03` is inserted first. This guarantees
/// no start-code prefix (`0x00 0x00 0x01` or its 4-byte variant) can
/// appear inside the resulting EBSP payload.
///
/// If the RBSP ends with `0x00 0x00`, a trailing `0x03` is appended so the
/// next NAL's start code can be distinguished from a payload-internal pair
/// of zeros.
pub fn rbsp_to_ebsp(rbsp: &[u8]) -> (out: Vec<u8>)
    ensures
        out@ == escape(rbsp@, 0),
{
    let n: usize = rbsp.len();
    let mut out: Vec<u8> = Vec::new();
    let mut run: u8 = 0;
    let mut i: usize = 0;
    proof {
        assert(rbsp@.skip(0) =~= rbsp@);
    }
    while i < n
        invariant
            i <= n,
            n == rbsp@.len(),
            run <= 2,
            out@ + escape(rbsp@.skip(i as int), run as nat) == escape(rbsp@, 0),
        decreases n - i,
    {
        let b: u8 = rbsp[i];
        let ghost rest = rbsp@.skip(i as int);
        let ghost tail = rbsp@.skip(i + 1);
        proof {
            assert(rest.skip(1) =~= tail);
        }
        if run >= 2 && b <= 3 {
            proof {
                let t = escape(tail, zero_run(0, b));
                assert(out@.push(3).push(b) + t =~= out@ + (seq![3u8, b] + t));
            }
            out.push(3);
            run = 0;
        } else {
            proof {
                let t = escape(tail, zero_run(run as nat, b));
                assert(out@.push(b) + t =~= out@ + (seq![b] + t));
            }
        }
        out.push(b);
        if b != 0 {
            run = 0;
        } else if run >= 1 {
            run = 2;
        } else {
            run = 1;
        }
        i = i + 1;
    }
    if run >= 2 {
        proof {
            assert(out@.push(3) =~= out@ + seq![3u8]);
        }
        out.push(3);
    } else {
        proof {
            assert(out@ + Seq::<u8>::empty() =~= out@);
        }
    }
    out
}

proof fn lemma_unescape_step(e: Seq<u8>)
    requires
        e.len() > 0,
        !(e.len() >= 3 && e[0] == 0 && e[1] == 0 && e[2] == 3),
    ensures
        unescape(e) == seq![e[0]] + unescape(e.skip(1)),
{
}

#[verifier::spinoff_prover]
proof fn lemma_unescape_escape(r: Seq<u8>, z: nat)
    requires
        z <= 2,
    ensures
        z == 0 ==> unescape(escape(r, 0)) == r,
        z == 1 ==> unescape(seq![0u8] + escape(r, 1)) == seq![0u8] + r,
        z == 2 ==> unescape(seq![0u8, 0u8] + escape(r, 2)) == seq![0u8, 0u8] + r,
    decreases r.len(),
{
    if r.len() == 0 {
        assert(r =~= Seq::empty());
        if z == 1 {
            let e = seq![0u8] + escape(r, 1);
            assert(e.skip(1) =~= Seq::empty());
            assert(unescape(Seq::<u8>::empty()) =~= Seq::empty());
            assert(unescape(e) =~= seq![0u8] + r);
        } else if z == 2 {
            let e = seq![0u8, 0u8] + escape(r, 2);
            assert(e =~= seq![0u8, 0u8, 3u8]);
            assert(e.skip(3) =~= Seq::empty());
            assert(unescape(e.skip(3)) =~= Seq::empty());
            assert(unescape(e) =~= seq![0u8, 0u8] + r);
        }
    } else {
        let b = r[0];
        let t = r.skip(1);
        assert(r =~= seq![b] + t);
        if z == 2 && b <= 3 {
            let k = zero_run(0, b);
            lemma_unescape_escape(t, k);
            let e = seq![0u8, 0u8] + escape(r, 2);
            let e3 = seq![b] + escape(t, k);
            assert(e.skip(3) =~= e3);
            if b != 0 {
                assert(e3.skip(1) =~= escape(t, 0));
                lemma_unescape_step(e3);
            }
            assert(unescape(e3) =~= r);
            assert(unescape(e) =~= seq![0u8, 0u8] + r);
        } else {
            let k = zero_run(z, b);
            lemma_unescape_escape(t, k);
            let tail = seq![b] + escape(t, k);
            if b != 0 {
                assert(tail.skip(1) =~= escape(t, 0));
                lemma_unescape_step(tail);
                assert(unescape(tail) =~= r);
            }
            if z == 0 {
                assert(unescape(tail) =~= r);
            } else if z == 1 {
                let e = seq![0u8] + tail;
                assert(e =~= seq![0u8] + escape(r, 1));
                if b != 0 {
                    assert(e.skip(1) =~= tail);
                    lemma_unescape_step(e);
                } else {
                    assert(e =~= seq![0u8, 0u8] + escape(t, 2));
                }
                assert(unescape(e) =~= seq![0u8] + r);
            } else {
                let e = seq![0u8, 0u8] + tail;
                let e1 = seq![0u8] + tail;
                assert(e =~= seq![0u8, 0u8] + escape(r, 2));
                assert(e.skip(1) =~= e1);
                assert(e1.skip(1) =~= tail);
                lemma_unescape_step(e);
                lemma_unescape_step(e1);
                assert(unescape(e) =~= seq![0u8, 0u8] + r);
            }
        }
    }
}

/// Stripping undoes inserting: `ebsp_to_rbsp(&rbsp_to_ebsp(x)) == x` for any
/// byte string `x`.
pub proof fn law_unescape_escape(x: Seq<u8>)
    ensures
        unescape(escape(x, 0)) == x,
{
    lemma_unescape_escape(x, 0);
}

/// No start-code prefix stands at position `i`: two zero bytes are not
/// followed by a byte of at most 2.
pub open spec fn no_prefix_at(e: Seq<u8>, i: int) -> bool {
    !(e[i] == 0 && e[i + 1] == 0 && e[i + 2] <= 2)
}

#[verifier::rlimit(50)]
#[verifier::spinoff_prover]
proof fn lemma_escape_no_prefix(r: Seq<u8>, z: nat)
    requires
        z <= 2,
    ensures
        ({
            let e = Seq::new(z, |i: int| 0u8) + escape(r, z);
            &&& forall|i: int| 0 <= i && i + 2 < e.len() ==> #[trigger] no_prefix_at(e, i)
            &&& e.len() >= 2 ==> !(e[e.len() - 2] == 0 && e[e.len() - 1] == 0)
        }),
    decreases r.len(),
{
    let e = Seq::new(z, |i: int| 0u8) + escape(r, z);
    if r.len() > 0 {
        let b = r[0];
        let t = r.skip(1);
        let k = if z >= 2 && b <= 3 {
            zero_run(0, b)
        } else {
            zero_run(z, b)
        };
        lemma_escape_no_prefix(t, k);
        let f = Seq::new(k, |i: int| 0u8) + escape(t, k);
        // What comes before `escape(t, k)` in `e`.
        let head = (e.len() - escape(t, k).len()) as int;
        assert forall|j: int| 0 <= j < escape(t, k).len() implies e[head + j] == #[trigger] escape(
            t,
            k,
        )[j] by {}
        assert forall|i: int| 0 <= i && i + 2 < e.len() implies #[trigger] no_prefix_at(e, i) by {
            if i + 2 >= head {
                let j = i - head + k;
                if j >= 0 {
                    assert(no_prefix_at(f, j));
                    assert(e[i] == f[j] && e[i + 1] == f[j + 1] && e[i + 2] == f[j + 2]);
                }
            }
        }
        if e.len() >= 2 {
            assert(f.len() >= 2 ==> e[e.len() - 1] == f[f.len() - 1] && e[e.len() - 2] == f[f.len()
                - 2]);
        }
    }
}

/// The escaped form holds no start-code prefix, and does not end in two zero
/// bytes that a following start code could run into.
pub proof fn law_escape_no_prefix(x: Seq<u8>)
    ensures
        forall|i: int| 0 <= i && i + 2 < escape(x, 0).len() ==> #[trigger] no_prefix_at(
            escape(x, 0),
            i,
        ),
        escape(x, 0).len() >= 2 ==> !(escape(x, 0)[escape(x, 0).len() - 2] == 0 && escape(x, 0)[escape(x, 0).len()
            - 1] == 0),
{
    lemma_escape_no_prefix(x, 0);
    assert(Seq::new(0, |i: int| 0u8) + escape(x, 0) =~= escape(x, 0));
}

/// Two zero bytes at position `i` are followed by a byte of at least 3, and a 3
/// behind them is at the end or followed by a byte of at most 3.
pub open spec fn escaped_at(e: Seq<u8>, i: int) -> bool {
    e[i] == 0 && e[i + 1] == 0 ==> i + 2 < e.len() && e[i + 2] >= 3 && (e[i + 2] == 3 && i + 3 < e.len() ==> e[i + 3]
        <= 3)
}

/// A conformant EBSP.
pub open spec fn conformant(e: Seq<u8>) -> bool {
    forall|i: int| 0 <= i && i + 1 < e.len() ==> #[trigger] escaped_at(e, i)
}

#[verifier::rlimit(50)]
#[verifier::spinoff_prover]
proof fn lemma_escape_unescape(e: Seq<u8>, i: int, z: nat)
    requires
        conformant(e),
        0 <= i <= e.len(),
        z <= 2,
        z <= i,
        z >= 1 ==> e[i - 1] == 0 && (i + 1 < e.len() && e[i] == 0 ==> e[i + 1] != 3),
        z >= 2 ==> e[i - 2] == 0 && (i < e.len() ==> e[i] != 3),
    ensures
        escape(unescape(e.skip(i)), z) == e.skip(i),
    decreases e.len() - i,
{
    let rest = e.skip(i);
    if z >= 2 {
        assert(escaped_at(e, i - 2));
    }
    if rest.len() == 0 {
        assert(rest =~= Seq::empty());
    } else if rest.len() >= 3 && rest[0] == 0 && rest[1] == 0 && rest[2] == 3 {
        if z >= 1 {
            assert(escaped_at(e, i - 1));
        }
        let tail = e.skip(i + 3);
        assert(rest.skip(3) =~= tail);
        lemma_escape_unescape(e, i + 3, 0);
        let u = unescape(tail);
        assert(escaped_at(e, i));
        if tail.len() > 0 {
            assert(u.len() > 0 && u[0] == tail[0]);
        }
        let r1 = seq![0u8] + u;
        let r2 = seq![0u8, 0u8] + u;
        assert(r2.skip(1) =~= r1);
        assert(r1.skip(1) =~= u);
        assert(escape(u, 2) =~= seq![3u8] + escape(u, 0));
        assert(escape(r1, 1) =~= seq![0u8] + escape(u, 2));
        assert(escape(r2, 0) =~= seq![0u8] + escape(r1, 1));
        assert(rest =~= seq![0u8, 0u8, 3u8] + tail);
        assert(escape(r2, 0) =~= rest);
    } else {
        let b = rest[0];
        let tail = e.skip(i + 1);
        assert(rest.skip(1) =~= tail);
        let u = unescape(tail);
        let r1 = seq![b] + u;
        assert(r1.skip(1) =~= u);
        if z >= 1 && b == 0 {
            assert(escaped_at(e, i - 1));
        }
        if b == 0 && i + 1 < e.len() {
            assert(escaped_at(e, i));
        }
        lemma_escape_unescape(e, i + 1, zero_run(z, b));
        assert(escape(r1, z) =~= rest);
    }
}

/// Inserting undoes stripping for every conformant EBSP.
pub proof fn law_escape_unescape(e: Seq<u8>)
    requires
        conformant(e),
    ensures
        escape(unescape(e), 0) == e,
{
    assert(e.skip(0) =~= e);
    lemma_escape_unescape(e, 0, 0);
}

/// Removing emulation-prevention bytes never makes a payload longer.
pub proof fn lemma_unescape_len(e: Seq<u8>)
    ensures
        unescape(e).len() <= e.len(),
    decreases e.len(),
{
    if e.len() > 0 {
        lemma_unescape_len(e.skip(1));
        if e.len() >= 3 {
            lemma_unescape_len(e.skip(3));
        }
    }
}

// ─────────────────────────── Framing conversion ─────────────────────────────
//
// The same elementary stream travels in two framings:
//
// * **Annex-B byte stream**: each NAL unit is preceded by a 3-byte
//   (`00 00 01`) or 4-byte (`00 00 00 01`) start-code prefix.
// * **Length-prefixed**: each NAL unit is preceded by a 1..4-byte
//   big-endian length field (`nal_length_size`, most commonly 4).
//
// The converters below re-frame between the two without touching NAL
// payload bytes.

/// A big-endian number.
pub open spec fn be_value(b: Seq<u8>) -> nat
    decreases b.len(),
{
    if b.len() == 0 {
        0
    } else {
        256 * be_value(b.drop_last()) + b.last() as nat
    }
}

/// `v` as a big-endian number of `n` bytes.
pub open spec fn be_bytes(v: nat, n: nat) -> Seq<u8>
    decreases n,
{
    if n == 0 {
        Seq::empty()
    } else {
        be_bytes(v / 256, (n - 1) as nat).push((v % 256) as u8)
    }
}

/// The largest length of a field of `n` bytes.
pub open spec fn be_max(n: nat) -> nat
    decreases n,
{
    if n == 0 {
        0
    } else {
        256 * be_max((n - 1) as nat) + 255
    }
}

/// The NAL units of a length-prefixed stream.
pub open spec fn prefixed_nals(b: Seq<u8>, size: nat) -> Result<Seq<Seq<u8>>, Fault>
    recommends
        size > 0,
    decreases b.len(),
{
    if b.len() == 0 || size == 0 {
        Ok(Seq::empty())
    } else if b.len() < size {
        Err(Fault::End)
    } else {
        let n = be_value(b.take(size as int));
        if size + n > b.len() {
            Err(Fault::End)
        } else {
            match prefixed_nals(b.skip((size + n) as int), size) {
                Err(f) => Err(f),
                Ok(rest) => Ok(seq![b.subrange(size as int, (size + n) as int)] + rest),
            }
        }
    }
}

/// NAL units as a length-prefixed stream.
pub open spec fn prefixed_bytes(nals: Seq<Seq<u8>>, size: nat) -> Seq<u8>
    decreases nals.len(),
{
    if nals.len() == 0 {
        Seq::empty()
    } else {
        be_bytes(nals[0].len(), size) + nals[0] + prefixed_bytes(nals.skip(1), size)
    }
}

/// NAL units as an Annex-B byte stream, each behind a 4-byte start code.
pub open spec fn annex_b_bytes(nals: Seq<Seq<u8>>) -> Seq<u8>
    decreases nals.len(),
{
    if nals.len() == 0 {
        Seq::empty()
    } else {
        seq![0u8, 0u8, 0u8, 1u8] + nals[0] + annex_b_bytes(nals.skip(1))
    }
}

/// The length of the start code at position `i`, 0 if there is none.
pub open spec fn start_code(b: Seq<u8>, i: int) -> int {
    if i + 3 < b.len() && b[i] == 0 && b[i + 1] == 0 && b[i + 2] == 0 && b[i + 3] == 1 {
        4
    } else if i + 2 < b.len() && b[i] == 0 && b[i + 1] == 0 && b[i + 2] == 1 {
        3
    } else {
        0
    }
}

/// The position of the first start code from `i` on, the end if there is none.
pub open spec fn next_start(b: Seq<u8>, i: int) -> int
    decreases b.len() - i,
{
    if i >= b.len() || start_code(b, i) > 0 {
        i
    } else {
        next_start(b, i + 1)
    }
}

/// The NAL units from the body that starts at `i` on.
pub open spec fn bodies_from(b: Seq<u8>, i: int) -> Seq<Seq<u8>>
    decreases b.len() - i,
    when 0 <= i <= b.len()
    via bodies_decreases
{
    let e = next_start(b, i);
    if e >= b.len() {
        seq![b.skip(i)]
    } else {
        seq![b.subrange(i, e)] + bodies_from(b, e + start_code(b, e))
    }
}

#[via_fn]
proof fn bodies_decreases(b: Seq<u8>, i: int) {
    lemma_next_start(b, i);
}

/// The NAL units of an Annex-B byte stream, if it holds a start code.
pub open spec fn annex_b_nals(b: Seq<u8>) -> Option<Seq<Seq<u8>>> {
    let e = next_start(b, 0);
    if e >= b.len() {
        None
    } else {
        Some(bodies_from(b, e + start_code(b, e)))
    }
}

/// Every NAL unit is at most `max` bytes long.
pub open spec fn nals_fit(nals: Seq<Seq<u8>>, max: nat) -> bool {
    forall|i: int| 0 <= i < nals.len() ==> (#[trigger] nals[i]).len() <= max
}

pub proof fn lemma_next_start(b: Seq<u8>, i: int)
    requires
        0 <= i <= b.len(),
    ensures
        i <= next_start(b, i) <= b.len(),
        next_start(b, i) < b.len() ==> start_code(b, next_start(b, i)) > 0 && next_start(b, i) + start_code(
            b,
            next_start(b, i),
        ) <= b.len(),
        forall|k: int| i <= k < next_start(b, i) ==> #[trigger] start_code(b, k) == 0,
    decreases b.len() - i,
{
    if i < b.len() && start_code(b, i) == 0 {
        lemma_next_start(b, i + 1);
    }
}

proof fn lemma_next_start_is(b: Seq<u8>, i: int, e: int)
    requires
        0 <= i <= e <= b.len(),
        e < b.len() ==> start_code(b, e) > 0,
        forall|k: int| i <= k < e ==> #[trigger] start_code(b, k) == 0,
    ensures
        next_start(b, i) == e,
    decreases e - i,
{
    if i < e {
        assert(start_code(b, i) == 0);
        lemma_next_start_is(b, i + 1, e);
    }
}

proof fn lemma_be_bytes(v: nat, n: nat)
    ensures
        be_bytes(v, n).len() == n,
        v <= be_max(n) ==> be_value(be_bytes(v, n)) == v,
    decreases n,
{
    if n > 0 {
        lemma_be_bytes(v / 256, (n - 1) as nat);
        assert(be_bytes(v, n).drop_last() =~= be_bytes(v / 256, (n - 1) as nat));
    }
}

proof fn lemma_be_value(b: Seq<u8>)
    ensures
        be_bytes(be_value(b), b.len()) == b,
        be_value(b) <= be_max(b.len()),
    decreases b.len(),
{
    if b.len() > 0 {
        lemma_be_value(b.drop_last());
        assert(be_value(b) / 256 == be_value(b.drop_last()));
        assert(be_value(b) % 256 == b.last());
    }
    assert(be_bytes(be_value(b), b.len()) =~= b);
}

/// A length-prefixed stream that was written splits into the NAL units that
/// were written.
#[verifier::rlimit(50)]
#[verifier::spinoff_prover]
pub proof fn law_split_prefixed(nals: Seq<Seq<u8>>, size: nat)
    requires
        1 <= size <= 4,
        nals_fit(nals, be_max(size)),
    ensures
        prefixed_nals(prefixed_bytes(nals, size), size) == Ok::<Seq<Seq<u8>>, Fault>(nals),
    decreases nals.len(),
{
    if nals.len() > 0 {
        let b = prefixed_bytes(nals, size);
        let rest = nals.skip(1);
        assert(nals_fit(rest, be_max(size))) by {
            assert forall|i: int| 0 <= i < rest.len() implies (#[trigger] rest[i]).len() <= be_max(size) by {
                assert(rest[i] == nals[i + 1]);
            }
        }
        law_split_prefixed(rest, size);
        let n = nals[0].len();
        lemma_be_bytes(n, size);
        assert(n <= be_max(size));
        assert(b.take(size as int) =~= be_bytes(n, size));
        assert(b.subrange(size as int, (size + n) as int) =~= nals[0]);
        assert(b.skip((size + n) as int) =~= prefixed_bytes(rest, size));
        assert(seq![nals[0]] + rest =~= nals);
    } else {
        assert(nals =~= Seq::empty());
    }
}

/// The NAL units of a length-prefixed stream make up the stream when they are
/// written again.
#[verifier::rlimit(50)]
#[verifier::spinoff_prover]
pub proof fn law_prefix_split(b: Seq<u8>, size: nat)
    requires
        1 <= size <= 4,
    ensures
        prefixed_nals(b, size) matches Ok(nals)
            ==> prefixed_bytes(nals, size) == b
            && nals_fit(nals, be_max(size)),
    decreases b.len(),
{
    if b.len() == 0 {
        assert(b =~= Seq::empty());
    } else if b.len() >= size {
        let n = be_value(b.take(size as int));
        if size + n <= b.len() {
            law_prefix_split(b.skip((size + n) as int), size);
            if let Ok(rest) = prefixed_nals(b.skip((size + n) as int), size) {
                let nal = b.subrange(size as int, (size + n) as int);
                let nals = seq![nal] + rest;
                lemma_be_value(b.take(size as int));
                assert(nals.skip(1) =~= rest);
                assert(prefixed_bytes(nals, size) =~= b);
                assert forall|i: int| 0 <= i < nals.len() implies (#[trigger] nals[i]).len() <= be_max(size) by {
                    if i > 0 {
                        assert(nals[i] == rest[i - 1]);
                    }
                }
            }
        }
    }
}

/// No start code stands inside a NAL unit.
pub open spec fn no_start_code(nal: Seq<u8>) -> bool {
    forall|i: int| 0 <= i && i + 2 < nal.len() ==> #[trigger] no_code_at(nal, i)
}

/// No 3-byte start code stands at position `i`.
pub open spec fn no_code_at(nal: Seq<u8>, i: int) -> bool {
    !(nal[i] == 0 && nal[i + 1] == 0 && nal[i + 2] == 1)
}

#[verifier::rlimit(50)]
#[verifier::spinoff_prover]
proof fn lemma_bodies_written(b: Seq<u8>, i: int, nals: Seq<Seq<u8>>)
    requires
        4 <= i <= b.len(),
        nals.len() > 0,
        b.skip(i) == nals[0] + annex_b_bytes(nals.skip(1)),
        forall|k: int| 0 <= k < nals.len() ==> no_start_code(#[trigger] nals[k]),
    ensures
        bodies_from(b, i) == nals,
    decreases nals.len(),
{
    let nal = nals[0];
    let rest = nals.skip(1);
    let tail = annex_b_bytes(rest);
    let e = i + nal.len();
    assert(b.skip(i).len() == b.len() - i);
    assert(b.len() == e + tail.len());
    assert forall|k: int| i <= k < b.len() implies #[trigger] b[k] == (nal + tail)[k - i] by {
        assert(b.skip(i)[k - i] == b[k]);
    }
    assert(no_start_code(nal));
    if rest.len() > 0 {
        assert(tail.len() >= 4);
        assert(b[e] == 0 && b[e + 1] == 0 && b[e + 2] == 0 && b[e + 3] == 1);
    }
    assert forall|k: int| i <= k < e implies #[trigger] start_code(b, k) == 0 by {
        if k + 2 < e {
            assert(no_code_at(nal, k - i));
            if k + 3 < e {
                assert(no_code_at(nal, k + 1 - i));
            }
        }
    }
    lemma_next_start_is(b, i, e);
    if rest.len() == 0 {
        assert(tail =~= Seq::empty());
        assert(b.skip(i) =~= nal);
        assert(nals =~= seq![nal]);
    } else {
        assert(b.skip(e + 4) =~= b.skip(i).skip((nal.len() + 4) as int));
        assert((nal + tail).skip((nal.len() + 4) as int) =~= rest[0] + annex_b_bytes(rest.skip(1)));
        assert forall|k: int| 0 <= k < rest.len() implies no_start_code(#[trigger] rest[k]) by {
            assert(rest[k] == nals[k + 1]);
        }
        lemma_bodies_written(b, e + 4, rest);
        assert(b.subrange(i, e) =~= nal);
        assert(nals =~= seq![nal] + rest);
    }
}

/// NAL units that hold no start code come back from the Annex-B byte stream
/// that they are written as.
pub proof fn law_split_annex_b(nals: Seq<Seq<u8>>)
    requires
        nals.len() > 0,
        forall|k: int| 0 <= k < nals.len() ==> no_start_code(#[trigger] nals[k]),
    ensures
        annex_b_nals(annex_b_bytes(nals)) == Some(nals),
{
    let b = annex_b_bytes(nals);
    assert(start_code(b, 0) == 4);
    assert(b.skip(4) =~= nals[0] + annex_b_bytes(nals.skip(1)));
    lemma_bodies_written(b, 4, nals);
}

/// Re-framing a length-prefixed stream as Annex-B and back gives the stream, if it
/// holds at least one NAL unit and none of them holds a start code.
pub proof fn law_reframe(b: Seq<u8>, size: nat)
    requires
        1 <= size <= 4,
        prefixed_nals(b, size) matches Ok(nals) && nals.len() > 0 && forall|k: int|
            0 <= k < nals.len() ==> no_start_code(#[trigger] nals[k]),
    ensures
        ({
            let nals = prefixed_nals(b, size)->Ok_0;
            &&& annex_b_nals(annex_b_bytes(nals)) == Some(nals)
            &&& nals_fit(nals, be_max(size))
            &&& prefixed_bytes(nals, size) == b
        }),
{
    law_prefix_split(b, size);
    law_split_annex_b(prefixed_nals(b, size)->Ok_0);
}

/// A NAL unit body in escaped form holds no start code.
pub proof fn law_escaped_no_start_code(x: Seq<u8>)
    ensures
        no_start_code(escape(x, 0)),
{
    law_escape_no_prefix(x);
    let e = escape(x, 0);
    assert forall|i: int| 0 <= i && i + 2 < e.len() implies #[trigger] no_code_at(e, i) by {
        assert(no_prefix_at(e, i));
    }
}

/// The big-endian number in the `n` bytes from `i` on.
fn read_be(b: &[u8], i: usize, n: usize) -> (v: u64)
    requires
        n <= 4,
        i + n <= b@.len(),
    ensures
        v == be_value(b@.subrange(i as int, i + n)),
        v <= 0xffff_ffff,
{
    let total: usize = b.len();
    let mut v: u64 = 0;
    let mut k: usize = 0;
    proof {
        assert(b@.subrange(i as int, i as int) =~= Seq::empty());
    }
    while k < n
        invariant
            k <= n <= 4,
            i + n <= total,
            total == b@.len(),
            v == be_value(b@.subrange(i as int, i + k)),
            k == 0 ==> v == 0,
            k == 1 ==> v <= 0xff,
            k == 2 ==> v <= 0xffff,
            k == 3 ==> v <= 0xff_ffff,
            k == 4 ==> v <= 0xffff_ffff,
        decreases n - k,
    {
        proof {
            let s = b@.subrange(i as int, i + k + 1);
            assert(s.drop_last() =~= b@.subrange(i as int, i + k));
            assert(s.last() == b@[i + k]);
        }
        v = v * 256 + b[i + k] as u64;
        k = k + 1;
    }
    v
}

/// Split a length-prefixed stream into NAL-unit body slices.
///
/// `length_size` is the prefix width in bytes (1..=4). Every declared
/// length is validated against the remaining bytes before slicing:
/// a truncated final unit yields [`BitstreamError::UnexpectedEnd`].
#[verifier::rlimit(50)]
#[verifier::spinoff_prover]
pub fn split_length_prefixed<'a>(
    buf: &'a [u8],
    length_size: usize,
) -> (res: Result<Vec<&'a [u8]>, BitstreamError>)
    ensures
        if 1 <= length_size <= 4 {
            match prefixed_nals(buf@, length_size as nat) {
                Ok(nals) => res matches Ok(v) && seq_view(v@) == nals,
                Err(f) => res matches Err(e) && e.fault() == f,
            }
        } else {
            res matches Err(e) && e.fault() == Fault::Invalid
        },
{
    if length_size < 1 || length_size > 4 {
        return Err(BitstreamError::invalid("nal_length_size must be 1..=4 bytes"));
    }
    let ghost size = length_size as nat;
    let mut out: Vec<&'a [u8]> = Vec::new();
    let mut i: usize = 0;
    proof {
        assert(buf@.skip(0) =~= buf@);
        if let Ok(rest) = prefixed_nals(buf@, size) {
            assert(seq_view(out@) + rest =~= rest);
        }
    }
    while i < buf.len()
        invariant
            i <= buf@.len(),
            1 <= length_size <= 4,
            size == length_size,
            match prefixed_nals(buf@.skip(i as int), size) {
                Ok(rest) => prefixed_nals(buf@, size) == Ok::<Seq<Seq<u8>>, Fault>(seq_view(out@) + rest),
                Err(f) => prefixed_nals(buf@, size) == Err::<Seq<Seq<u8>>, Fault>(f),
            },
        decreases buf@.len() - i,
    {
        let ghost b = buf@.skip(i as int);
        let ghost before = out@;
        if buf.len() - i < length_size {
            return Err(BitstreamError::unexpected_end("length prefix truncated at end of stream"));
        }
        let len: u64 = read_be(buf, i, length_size);
        proof {
            assert(buf@.subrange(i as int, i + length_size) =~= b.take(size as int));
        }
        let left: usize = buf.len() - i - length_size;
        if len > left as u64 {
            return Err(
                Message::new("declared NAL length ")
                    .num(len as i128)
                    .with(" overruns stream (")
                    .num(left as i128)
                    .with(" bytes left)")
                    .unexpected_end(),
            );
        }
        let start: usize = i + length_size;
        let end: usize = start + len as usize;
        let nal = slice_subrange(buf, start, end);
        proof {
            lemma_seq_view_push(out@, nal);
        }
        out.push(nal);
        proof {
            assert(b.skip((size + len) as int) =~= buf@.skip(end as int));
            assert(nal@ =~= b.subrange(size as int, (size + len) as int));
            if let Ok(rest) = prefixed_nals(buf@.skip(end as int), size) {
                assert(seq_view(before) + (seq![nal@] + rest) =~= seq_view(out@) + rest);
            }
        }
        i = end;
    }
    proof {
        assert(buf@.skip(i as int) =~= Seq::empty());
        assert(seq_view(out@) + Seq::<Seq<u8>>::empty() =~= seq_view(out@));
    }
    Ok(out)
}

/// Appends the bytes `i..end` of `b`.
fn append_bytes(out: &mut Vec<u8>, b: &[u8], i: usize, end: usize)
    requires
        i <= end <= b@.len(),
    ensures
        final(out)@ == old(out)@ + b@.subrange(i as int, end as int),
{
    let ghost before = out@;
    let mut k: usize = i;
    proof {
        assert(out@ =~= before + b@.subrange(i as int, i as int));
    }
    while k < end
        invariant
            i <= k <= end <= b@.len(),
            out@ == before + b@.subrange(i as int, k as int),
        decreases end - k,
    {
        out.push(b[k]);
        proof {
            assert(out@ =~= before + b@.subrange(i as int, k + 1));
        }
        k = k + 1;
    }
}

/// Convert a length-prefixed stream to an Annex-B byte stream. Every
/// NAL unit is emitted behind a 4-byte `00 00 00 01` start code.
#[verifier::rlimit(50)]
#[verifier::spinoff_prover]
pub fn length_prefixed_to_annex_b(buf: &[u8], length_size: usize) -> (res: Result<Vec<u8>, BitstreamError>)
    ensures
        if 1 <= length_size <= 4 {
            match prefixed_nals(buf@, length_size as nat) {
                Ok(nals) => res matches Ok(v) && v@ == annex_b_bytes(nals),
                Err(f) => res matches Err(e) && e.fault() == f,
            }
        } else {
            res matches Err(e) && e.fault() == Fault::Invalid
        },
{
    let nals = split_length_prefixed(buf, length_size)?;
    let ghost all = seq_view(nals@);
    let mut out: Vec<u8> = Vec::new();
    let mut i: usize = 0;
    proof {
        assert(all.skip(0) =~= all);
        assert(out@ + annex_b_bytes(all) =~= annex_b_bytes(all));
    }
    while i < nals.len()
        invariant
            i <= nals@.len(),
            all == seq_view(nals@),
            out@ + annex_b_bytes(all.skip(i as int)) == annex_b_bytes(all),
        decreases nals@.len() - i,
    {
        let ghost before = out@;
        let nal = nals[i];
        out.push(0);
        out.push(0);
        out.push(0);
        out.push(1);
        append_bytes(&mut out, nal, 0, nal.len());
        proof {
            let rest = all.skip(i as int);
            assert(rest[0] == nal@);
            assert(nal@.subrange(0, nal@.len() as int) =~= nal@);
            assert(rest.skip(1) =~= all.skip(i + 1));
            assert(out@ + annex_b_bytes(all.skip(i + 1)) =~= before + (seq![0u8, 0u8, 0u8, 1u8] + nal@
                + annex_b_bytes(rest.skip(1))));
        }
        i = i + 1;
    }
    proof {
        assert(all.skip(i as int) =~= Seq::empty());
        assert(out@ + annex_b_bytes(all.skip(i as int)) =~= out@);
    }
    Ok(out)
}

/// The largest length that a prefix of `n` bytes can hold.
fn max_length(n: usize) -> (v: u64)
    requires
        1 <= n <= 4,
    ensures
        v == be_max(n as nat),
{
    proof {
        reveal_with_fuel(be_max, 5);
    }
    if n == 1 {
        0xff
    } else if n == 2 {
        0xffff
    } else if n == 3 {
        0xff_ffff
    } else {
        0xffff_ffff
    }
}

/// Appends the NAL unit `buf[start..end]` behind its length.
fn flush(
    out: &mut Vec<u8>,
    buf: &[u8],
    start: usize,
    end: usize,
    n: usize,
) -> (res: Result<(), BitstreamError>)
    requires
        start <= end <= buf@.len(),
        1 <= n <= 4,
    ensures
        match res {
            Ok(()) => end - start <= be_max(n as nat) && final(out)@ == old(out)@ + be_bytes(
                (end - start) as nat,
                n as nat,
            ) + buf@.subrange(start as int, end as int),
            Err(e) => end - start > be_max(n as nat) && e.fault() == Fault::Invalid,
        },
{
    let ghost before = out@;
    let len: u64 = (end - start) as u64;
    if len > max_length(n) {
        return Err(
            Message::new("NAL unit of ")
                .num(len as i128)
                .with(" bytes does not fit a ")
                .num(n as i128)
                .with("-byte length prefix")
                .invalid(),
        );
    }
    proof {
        reveal_with_fuel(be_bytes, 5);
    }
    let b0: u8 = (len % 256) as u8;
    let b1: u8 = (len / 256 % 256) as u8;
    let b2: u8 = (len / 256 / 256 % 256) as u8;
    let b3: u8 = (len / 256 / 256 / 256 % 256) as u8;
    if n >= 4 {
        out.push(b3);
    }
    if n >= 3 {
        out.push(b2);
    }
    if n >= 2 {
        out.push(b1);
    }
    out.push(b0);
    proof {
        assert(out@ =~= before + be_bytes(len as nat, n as nat));
    }
    append_bytes(out, buf, start, end);
    Ok(())
}

/// Whether, and how long, a start code stands at position `i`.
pub(crate) fn start_code_at(buf: &[u8], i: usize) -> (n: usize)
    requires
        i < buf@.len(),
    ensures
        n == start_code(buf@, i as int),
        i + n <= buf@.len(),
{
    let left: usize = buf.len() - i;
    if left > 3 && buf[i] == 0 && buf[i + 1] == 0 && buf[i + 2] == 0 && buf[i + 3] == 1 {
        4
    } else if left > 2 && buf[i] == 0 && buf[i + 1] == 0 && buf[i + 2] == 1 {
        3
    } else {
        0
    }
}

/// The position of the first start code from `i` on.
pub(crate) fn find_start(buf: &[u8], i: usize) -> (e: usize)
    requires
        i <= buf@.len(),
    ensures
        e == next_start(buf@, i as int),
        i <= e <= buf@.len(),
{
    let mut k: usize = i;
    while k < buf.len()
        invariant
            i <= k <= buf@.len(),
            next_start(buf@, i as int) == next_start(buf@, k as int),
        ensures
            i <= k <= buf@.len(),
            next_start(buf@, i as int) == k,
        decreases buf@.len() - k,
    {
        if start_code_at(buf, k) > 0 {
            break;
        }
        k = k + 1;
    }
    k
}

proof fn lemma_prefixed_cons(nal: Seq<u8>, rest: Seq<Seq<u8>>, size: nat)
    ensures
        prefixed_bytes(
            seq![nal] + rest,
            size,
        ) == be_bytes(nal.len(), size) + nal + prefixed_bytes(rest, size),
{
    assert((seq![nal] + rest).skip(1) =~= rest);
}

/// Convert an Annex-B byte stream to length-prefixed framing.
///
/// Accepts both 3- and 4-byte start codes and any leading garbage
/// before the first start code (skipped).
/// Fails with [`BitstreamError::InvalidData`] when a NAL unit's
/// length does not fit `length_size` bytes, or when no start code is
/// found at all.
#[verifier::rlimit(50)]
#[verifier::spinoff_prover]
pub fn annex_b_to_length_prefixed(buf: &[u8], length_size: usize) -> (res: Result<Vec<u8>, BitstreamError>)
    ensures
        match res {
            Ok(v) => {
                &&& 1 <= length_size <= 4
                &&& annex_b_nals(buf@) matches Some(nals)
                &&& nals_fit(nals, be_max(length_size as nat))
                &&& v@ == prefixed_bytes(nals, length_size as nat)
            },
            Err(e) => {
                &&& e.fault() == Fault::Invalid
                &&& 1 <= length_size <= 4 ==> (annex_b_nals(buf@) matches Some(nals) ==> !nals_fit(
                    nals,
                    be_max(length_size as nat),
                ))
            },
        },
{
    if length_size < 1 || length_size > 4 {
        return Err(BitstreamError::invalid("nal_length_size must be 1..=4 bytes"));
    }
    let ghost size = length_size as nat;
    let first: usize = find_start(buf, 0);
    if first >= buf.len() {
        return Err(BitstreamError::invalid("no Annex-B start code found in input"));
    }
    let mut i: usize = first + start_code_at(buf, first);
    let ghost all = bodies_from(buf@, i as int);
    let ghost mut done: Seq<Seq<u8>> = Seq::empty();
    let mut out: Vec<u8> = Vec::new();
    proof {
        lemma_next_start(buf@, 0);
        assert(done + all =~= all);
        assert(out@ + prefixed_bytes(all, size) =~= prefixed_bytes(all, size));
    }
    loop
        invariant
            i <= buf@.len(),
            1 <= length_size <= 4,
            size == length_size,
            annex_b_nals(buf@) == Some(all),
            done + bodies_from(buf@, i as int) == all,
            nals_fit(done, be_max(size)),
            out@ + prefixed_bytes(bodies_from(buf@, i as int), size) == prefixed_bytes(all, size),
        decreases buf@.len() - i,
    {
        let ghost before = out@;
        let ghost d0 = done;
        let end: usize = find_start(buf, i);
        let ghost nal = buf@.subrange(i as int, end as int);
        proof {
            lemma_next_start(buf@, i as int);
            assert(buf@.skip(i as int) =~= buf@.subrange(i as int, buf@.len() as int));
            assert(all[d0.len() as int] == nal);
        }
        flush(&mut out, buf, i, end, length_size)?;
        proof {
            done = done.push(nal);
        }
        if end >= buf.len() {
            proof {
                assert(all =~= done);
                lemma_prefixed_cons(nal, Seq::empty(), size);
                assert(seq![nal] + Seq::<Seq<u8>>::empty() =~= seq![nal]);
                assert(out@ =~= before + prefixed_bytes(seq![nal], size));
            }
            return Ok(out);
        }
        let code: usize = start_code_at(buf, end);
        proof {
            let rest = bodies_from(buf@, end + code);
            lemma_prefixed_cons(nal, rest, size);
            assert(d0 + (seq![nal] + rest) =~= done + rest);
            assert(out@ + prefixed_bytes(rest, size) =~= before + prefixed_bytes(seq![nal] + rest, size));
        }
        i = end + code;
    }
}

/// What stripping does: a 3 behind two zero bytes goes, and everything else stays.
#[verifier::rlimit(50)]
#[verifier::spinoff_prover]
pub proof fn law_unescape(r: Seq<u8>, b: u8)
    ensures
        unescape(seq![0u8, 0u8, 3u8] + r) == seq![0u8, 0u8] + unescape(r),
        b != 0 ==> unescape(seq![b] + r) == seq![b] + unescape(r),
        (
            forall|i: int| 0 <= i
                && i + 2 < r.len()
                ==> !(#[trigger] r[i] == 0 && r[i + 1] == 0 && r[i + 2] == 3)
        )
            ==> unescape(r) == r,
    decreases r.len(),
{
    let e = seq![0u8, 0u8, 3u8] + r;
    assert(e.skip(3) =~= r);
    if b != 0 {
        let e = seq![b] + r;
        assert(e.skip(1) =~= r && e[0] == b);
    }
    if forall|i: int| 0 <= i && i + 2 < r.len() ==> !(#[trigger] r[i] == 0 && r[i + 1] == 0 && r[i + 2] == 3) {
        if r.len() > 0 {
            let t = r.skip(1);
            assert forall|i: int| 0 <= i && i + 2 < t.len() implies !(#[trigger] t[i] == 0 && t[i + 1] == 0
                && t[i + 2] == 3) by {
                assert(t[i] == r[i + 1]);
            }
            law_unescape(t, 1);
            if r.len() >= 3 {
                assert(!(r[0] == 0 && r[1] == 0 && r[2] == 3));
            }
            assert(r =~= seq![r[0]] + t);
        } else {
            assert(unescape(r) =~= r);
        }
    }
}

/// Every escaped form is conformant, so nothing is escaped that need not be.
pub proof fn law_escape_conformant(x: Seq<u8>)
    ensures
        conformant(escape(x, 0)),
{
    lemma_escape_conformant(x, 0);
}

#[verifier::rlimit(50)]
#[verifier::spinoff_prover]
proof fn lemma_escape_conformant(r: Seq<u8>, z: nat)
    requires
        z <= 2,
    ensures
        ({
            let e = escape(r, z);
            &&& conformant(e)
            &&& z >= 2 ==> e.len() >= 1 && e[0] >= 3 && (e[0] == 3 && e.len() > 1 ==> e[1] <= 3)
            &&& z >= 1 && e.len() >= 1 && e[0] == 0 ==> e.len() >= 2 && e[1] >= 3 && (e[1] == 3 && e.len() > 2
                ==> e[2] <= 3)
        }),
    decreases r.len(),
{
    let e = escape(r, z);
    if r.len() == 0 {
    } else if z >= 2 && r[0] <= 3 {
        let rest = escape(r.skip(1), zero_run(0, r[0]));
        lemma_escape_conformant(r.skip(1), zero_run(0, r[0]));
        assert(e =~= seq![3u8, r[0]] + rest);
        assert forall|i: int| 0 <= i && i + 1 < e.len() implies #[trigger] escaped_at(e, i) by {
            if i >= 2 {
                assert(escaped_at(rest, i - 2));
            } else if i == 1 {
                assert(rest.len() > 0 ==> e[2] == rest[0]);
                if rest.len() > 1 {
                    assert(e[3] == rest[1]);
                }
                if rest.len() > 2 {
                    assert(e[4] == rest[2]);
                }
            }
        }
    } else {
        let rest = escape(r.skip(1), zero_run(z, r[0]));
        lemma_escape_conformant(r.skip(1), zero_run(z, r[0]));
        assert(e =~= seq![r[0]] + rest);
        if rest.len() > 0 {
            assert(e[1] == rest[0]);
        }
        if rest.len() > 1 {
            assert(e[2] == rest[1]);
        }
        if rest.len() > 2 {
            assert(e[3] == rest[2]);
        }
        assert forall|i: int| 0 <= i && i + 1 < e.len() implies #[trigger] escaped_at(e, i) by {
            if i >= 1 {
                assert(escaped_at(rest, i - 1));
            }
        }
    }
}

/// A length is coded with its most significant byte first.
pub proof fn law_be_value(b: Seq<u8>)
    ensures
        b.len() == 1 ==> be_value(b) == b[0],
        b.len() == 2 ==> be_value(b) == 0x100 * b[0] + b[1],
        b.len() == 3 ==> be_value(b) == 0x1_0000 * b[0] + 0x100 * b[1] + b[2],
        b.len() == 4 ==> be_value(b) == 0x100_0000 * b[0] + 0x1_0000 * b[1] + 0x100 * b[2] + b[3],
        be_max(1) == 0xff,
        be_max(2) == 0xffff,
        be_max(3) == 0xff_ffff,
        be_max(4) == 0xffff_ffff,
{
    reveal_with_fuel(be_value, 5);
    reveal_with_fuel(be_max, 5);
}

/// A length-prefixed stream is a length, as many bytes, and the rest. One that ends
/// inside a length or a NAL unit is refused.
pub proof fn law_prefixed_first(b: Seq<u8>, size: nat)
    requires
        1 <= size <= 4,
        b.len() > 0,
    ensures
        ({
            let n = be_value(b.take(size as int));
            if b.len() < size || b.len() < size + n {
                prefixed_nals(b, size) == Err::<Seq<Seq<u8>>, Fault>(Fault::End)
            } else {
                match prefixed_nals(b.skip((size + n) as int), size) {
                    Ok(rest) => prefixed_nals(b, size) matches Ok(nals)
                        && nals.len() == rest.len() + 1
                        && nals[0]
                        == b.skip(size as int).take(n as int) && nals.skip(1) == rest,
                    Err(f) => prefixed_nals(b, size) == Err::<Seq<Seq<u8>>, Fault>(f),
                }
            }
        }),
{
    let n = be_value(b.take(size as int));
    if b.len() >= size && b.len() >= size + n {
        assert(b.skip(size as int).take(n as int) =~= b.subrange(size as int, (size + n) as int));
        if let Ok(rest) = prefixed_nals(b.skip((size + n) as int), size) {
            let nals = seq![b.subrange(size as int, (size + n) as int)] + rest;
            assert(nals.skip(1) =~= rest);
        }
    }
}

/// A start code is `00 00 01`, or `00 00 00 01`, and the next one is the first that
/// stands there.
pub proof fn law_next_start(b: Seq<u8>, i: int, j: int)
    requires
        0 <= i <= b.len(),
    ensures
        ({
            let e = next_start(b, i);
            let three = |k: int| k + 2 < b.len() && b[k] == 0 && b[k + 1] == 0 && b[k + 2] == 1;
            let four = |k: int|
                k + 3 < b.len() && b[k] == 0 && b[k + 1] == 0 && b[k + 2] == 0 && b[k + 3] == 1;
            &&& i <= e <= b.len()
            &&& e < b.len() ==> three(e) && start_code(b, e) == 3 || four(e) && start_code(b, e) == 4
            &&& i <= j < e ==> !three(j) && !four(j)
        }),
    decreases b.len() - i,
{
    if i < b.len() && start_code(b, i) <= 0 {
        law_next_start(b, i + 1, j);
    }
}

/// The NAL units of an Annex-B byte stream are what stands behind a start code, up to
/// the next one or to the end. What stands before the first one is passed over.
pub proof fn law_annex_b_nals(b: Seq<u8>)
    ensures
        ({
            let e = next_start(b, 0);
            annex_b_nals(b) == if e < b.len() {
                Some(bodies_from(b, e + start_code(b, e)))
            } else {
                None
            }
        }),
{
}

/// The NAL units from position `i` on: up to the next start code, and those behind it.
#[verifier::rlimit(50)]
#[verifier::spinoff_prover]
pub proof fn law_bodies_from(b: Seq<u8>, i: int)
    requires
        0 <= i <= b.len(),
    ensures
        ({
            let e = next_start(b, i);
            let v = bodies_from(b, i);
            &&& v.len() >= 1
            &&& v[0] == b.subrange(i, e)
            &&& if e < b.len() {
                v.skip(1) == bodies_from(b, e + start_code(b, e))
            } else {
                v.len() == 1
            }
        }),
{
    let e = next_start(b, i);
    law_next_start(b, i, i);
    if e < b.len() {
        let rest = bodies_from(b, e + start_code(b, e));
        assert((seq![b.subrange(i, e)] + rest).skip(1) =~= rest);
    } else {
        assert(b.skip(i) =~= b.subrange(i, e));
    }
}

/// Every NAL unit of a written Annex-B byte stream stands behind `00 00 00 01`.
pub proof fn law_annex_b_first(nals: Seq<Seq<u8>>)
    requires
        nals.len() > 0,
    ensures
        ({
            let b = annex_b_bytes(nals);
            let n = nals[0].len() as int;
            &&& b.len() >= 4 + n
            &&& b[0] == 0 && b[1] == 0 && b[2] == 0 && b[3] == 1
            &&& b.subrange(4, 4 + n) == nals[0]
            &&& b.skip(4 + n) == annex_b_bytes(nals.skip(1))
        }),
        annex_b_bytes(Seq::empty()).len() == 0,
{
    let b = annex_b_bytes(nals);
    let n = nals[0].len() as int;
    assert(b.subrange(4, 4 + n) =~= nals[0]);
    assert(b.skip(4 + n) =~= annex_b_bytes(nals.skip(1)));
}

/// [`ebsp_to_rbsp`] strips and [`rbsp_to_ebsp`] inserts emulation-prevention bytes, and
/// the one undoes the other.
pub proof fn law_strip_inserted(x: &[u8], e: Vec<u8>, y: &[u8], r: Vec<u8>)
    requires
        call_ensures(rbsp_to_ebsp, (x,), e),
        y@ == e@,
        call_ensures(ebsp_to_rbsp, (y,), r),
    ensures
        r@ == x@,
        r@ == unescape(y@),
        e@ == escape(x@, 0),
{
    law_unescape_escape(x@);
}

/// The framings are converted NAL unit by NAL unit. A length field has 1 to 4 bytes.
#[verifier::rlimit(50)]
#[verifier::spinoff_prover]
pub proof fn law_reframed(
    buf: &[u8],
    size: usize,
    split: Result<Vec<&[u8]>, BitstreamError>,
    codes: Result<Vec<u8>, BitstreamError>,
    lengths: Result<Vec<u8>, BitstreamError>,
)
    requires
        call_ensures(split_length_prefixed, (buf, size), split),
        call_ensures(length_prefixed_to_annex_b, (buf, size), codes),
        call_ensures(annex_b_to_length_prefixed, (buf, size), lengths),
    ensures
        !(1 <= size <= 4) ==> split is Err && codes is Err && lengths is Err,
        split is Ok <==> codes is Ok,
        match (split, codes) {
            (
                Ok(nals),
                Ok(out),
            ) => prefixed_nals(buf@, size as nat) == Ok::<Seq<Seq<u8>>, Fault>(seq_view(nals@))
                && out@ == annex_b_bytes(seq_view(nals@)),
            (Err(e), Err(f)) => e.fault() == f.fault() && (1 <= size <= 4 ==> e.fault() == Fault::End),
            _ => true,
        },
        lengths matches Ok(out) ==> annex_b_nals(buf@) matches Some(nals) && out@ == prefixed_bytes(
            nals,
            size as nat,
        ),
        lengths is Ok <==> 1 <= size <= 4 && (annex_b_nals(buf@) matches Some(nals) && nals_fit(
            nals,
            be_max(size as nat),
        )),
        lengths matches Err(e) ==> e.fault() == Fault::Invalid,
{
    lemma_prefixed_fault(buf@, size as nat);
}

proof fn lemma_prefixed_fault(b: Seq<u8>, size: nat)
    ensures
        prefixed_nals(b, size) matches Err(f) ==> f == Fault::End,
    decreases b.len(),
{
    if b.len() > 0 && size > 0 && b.len() >= size {
        let n = be_value(b.take(size as int));
        if size + n <= b.len() {
            lemma_prefixed_fault(b.skip((size + n) as int), size);
        }
    }
}

} // verus!
