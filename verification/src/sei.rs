//! SEI (supplemental enhancement information) framing, shared by the H.265
//! and H.266 payload modules.
//!
//! `sei_rbsp()` is a run of `sei_message()`s behind one another, each with its
//! `payloadType` and `payloadSize` as a run of 0xFF bytes and a last byte that
//! add up to the number. [`parse_sei_rbsp`] and [`sei_rbsp`] are inverse
//! to each other (see [`law_parse_written_sei`] and [`law_write_parsed_sei`]).
use crate::bit_reader::BitReader;
use crate::bit_writer::BitWriter;
use crate::bits::{
    POS_CAP, Read, bits_of, lemma_bits_of_len, lemma_pad_aligned, lemma_put_u_shape,
    lemma_put_zeros, lemma_rep_err, lemma_seq_view_push, lemma_trailing_aligned,
    lemma_trailing_shape, pad_len, pre, put_trailing, put_u, rep_at, seq_view, trailing_at,
    upto, whole, within,
};
use crate::message::Message;
use crate::{BitstreamError, Fault};
use vstd::prelude::*;

verus! {

// ─────────────────────────── Framing ─────────────────────────────────────────

/// One raw `sei_message()`.
#[derive(Debug, Clone, PartialEq, Eq)]
pub struct SeiMessage {
    pub payload_type: u32,
    pub payload: Vec<u8>,
}

/// The mathematical model of a [`SeiMessage`].
pub struct SeiMessageModel {
    pub payload_type: u32,
    pub payload: Seq<u8>,
}

impl View for SeiMessage {
    type V = SeiMessageModel;

    open spec fn view(&self) -> SeiMessageModel {
        SeiMessageModel { payload_type: self.payload_type, payload: self.payload@ }
    }
}

/// A number at byte `i`: 255 for each byte of a run of 0xFF, and the byte behind
/// the run.
pub open spec fn ff_at(b: Seq<u8>, i: nat) -> Read<nat>
    decreases b.len() - i,
{
    if i >= b.len() {
        Err(Fault::End)
    } else if b[i as int] == 255 {
        match ff_at(b, i + 1) {
            Err(f) => Err(f),
            Ok((v, j)) => Ok((v + 255, j)),
        }
    } else {
        Ok((b[i as int] as nat, i + 1))
    }
}

/// The bytes of a number.
pub open spec fn ff_bytes(v: nat) -> Seq<u8>
    decreases v,
{
    if v >= 255 {
        seq![255u8] + ff_bytes((v - 255) as nat)
    } else {
        seq![v as u8]
    }
}

/// The message at byte `i`.
pub open spec fn sei_message_at(b: Seq<u8>, i: nat) -> Read<SeiMessageModel> {
    match ff_at(b, i) {
        Err(f) => Err(f),
        Ok((t, i)) => match ff_at(b, i) {
            Err(f) => Err(f),
            Ok((n, i)) => if i + n > b.len() {
                Err(Fault::End)
            } else if t > u32::MAX {
                Err(Fault::Invalid)
            } else {
                Ok(
                    (
                        SeiMessageModel {
                            payload_type: t as u32,
                            payload: b.subrange(i as int, (i + n) as int),
                        },
                        i + n,
                    ),
                )
            },
        },
    }
}

/// The bytes of a message.
pub open spec fn sei_message_bytes(m: SeiMessageModel) -> Seq<u8> {
    ff_bytes(m.payload_type as nat) + ff_bytes(m.payload.len()) + m.payload
}

/// The bytes of messages, one behind the other.
pub open spec fn sei_messages_bytes(ms: Seq<SeiMessageModel>) -> Seq<u8>
    decreases ms.len(),
{
    if ms.len() == 0 {
        Seq::empty()
    } else {
        sei_messages_bytes(ms.drop_last()) + sei_message_bytes(ms.last())
    }
}

/// `n` messages from byte `i` on.
pub open spec fn sei_messages_at(b: Seq<u8>, i: nat, n: nat) -> Read<Seq<SeiMessageModel>> {
    rep_at(|done: Seq<SeiMessageModel>, q: nat| sei_message_at(b, q), i, n)
}

/// All bytes from `i` on are zero.
pub open spec fn zeros_from(b: Seq<u8>, i: nat) -> bool {
    forall|k: int| i <= k < b.len() ==> #[trigger] b[k] == 0
}

/// No message follows at byte `i`: all that is left is the byte of the trailing
/// bits or nothing, and zero bytes.
pub open spec fn sei_done(b: Seq<u8>, i: nat) -> bool {
    zeros_from(b, i) || (i < b.len() && b[i as int] == 0x80 && zeros_from(b, i + 1))
}

/// The messages from byte `i` on.
pub open spec fn sei_rbsp_at(b: Seq<u8>, i: nat) -> Read<Seq<SeiMessageModel>>
    decreases b.len() - i,
    when i <= b.len()
    via sei_rbsp_decreases
{
    match sei_message_at(b, i) {
        Err(f) => Err(f),
        Ok((m, j)) => if sei_done(b, j) {
            Ok((seq![m], j))
        } else {
            match sei_rbsp_at(b, j) {
                Err(f) => Err(f),
                Ok((ms, q)) => Ok((seq![m] + ms, q)),
            }
        },
    }
}

#[via_fn]
proof fn sei_rbsp_decreases(b: Seq<u8>, i: nat) {
    lemma_sei_message_end(b, i);
}

/// The messages of an SEI RBSP.
pub open spec fn sei_messages_of(b: Seq<u8>) -> Result<Seq<SeiMessageModel>, Fault> {
    match sei_rbsp_at(b, 0) {
        Err(f) => Err(f),
        Ok((ms, _)) => Ok(ms),
    }
}

proof fn lemma_ff_end(b: Seq<u8>, i: nat)
    ensures
        ff_at(b, i) matches Ok((v, j)) ==> i < j <= b.len() && v <= 255 * (j - i),
    decreases b.len() - i,
{
    if i < b.len() && b[i as int] == 255 {
        lemma_ff_end(b, i + 1);
    }
}

proof fn lemma_sei_message_end(b: Seq<u8>, i: nat)
    ensures
        sei_message_at(b, i) matches Ok((m, j)) ==> i + 2 <= j <= b.len(),
{
    lemma_ff_end(b, i);
    if let Ok((_, j)) = ff_at(b, i) {
        lemma_ff_end(b, j);
    }
}

proof fn lemma_ff_written(b: Seq<u8>, i: nat, v: nat)
    requires
        i + ff_bytes(v).len() <= b.len(),
        b.subrange(i as int, (i + ff_bytes(v).len()) as int) == ff_bytes(v),
    ensures
        ff_at(b, i) == Ok::<(nat, nat), Fault>((v, i + ff_bytes(v).len())),
    decreases v,
{
    let f = ff_bytes(v);
    assert(f.len() > 0);
    assert(b[i as int] == f[0]) by {
        assert(b.subrange(i as int, (i + f.len()) as int)[0] == b[i as int]);
    }
    if v >= 255 {
        let g = ff_bytes((v - 255) as nat);
        assert(b.subrange((i + 1) as int, (i + 1 + g.len()) as int) =~= f.skip(1)) by {
            assert(
                b.subrange(
                    (i + 1) as int,
                    (i + 1 + g.len()) as int,
                ) =~= b.subrange(i as int, (i + f.len()) as int).skip(1)
            );
        }
        assert(f.skip(1) =~= g);
        lemma_ff_written(b, i + 1, (v - 255) as nat);
    }
}

proof fn lemma_ff_read(b: Seq<u8>, i: nat)
    ensures
        ff_at(b, i) matches Ok((v, j)) ==> i < j <= b.len() && b.subrange(i as int, j as int) == ff_bytes(v),
    decreases b.len() - i,
{
    if i < b.len() {
        if b[i as int] == 255 {
            lemma_ff_read(b, i + 1);
            if let Ok((v, j)) = ff_at(b, i + 1) {
                assert(b.subrange(i as int, j as int) =~= seq![255u8] + b.subrange((i + 1) as int, j as int));
                assert(ff_bytes(v + 255) == seq![255u8] + ff_bytes(v));
            }
        } else {
            assert(b.subrange(i as int, (i + 1) as int) =~= seq![b[i as int]]);
        }
    }
}

/// A message that stands in `b` at byte `i` is read there.
pub proof fn lemma_message_written(b: Seq<u8>, i: nat, m: SeiMessageModel)
    requires
        i + sei_message_bytes(m).len() <= b.len(),
        b.subrange(i as int, (i + sei_message_bytes(m).len()) as int) == sei_message_bytes(m),
    ensures
        sei_message_at(b, i) == Ok::<(SeiMessageModel, nat), Fault>((m, i + sei_message_bytes(m).len())),
{
    let t = ff_bytes(m.payload_type as nat);
    let n = ff_bytes(m.payload.len());
    let w = sei_message_bytes(m);
    let s = b.subrange(i as int, (i + w.len()) as int);
    assert(b.subrange(i as int, (i + t.len()) as int) =~= s.take(t.len() as int));
    assert(w.take(t.len() as int) =~= t);
    lemma_ff_written(b, i, m.payload_type as nat);
    let j = i + t.len();
    assert(
        b.subrange(j as int, (j + n.len()) as int) =~= s.subrange(t.len() as int, (t.len() + n.len()) as int)
    );
    assert(w.subrange(t.len() as int, (t.len() + n.len()) as int) =~= n);
    lemma_ff_written(b, j, m.payload.len());
    let k = j + n.len();
    assert(b.subrange(k as int, (k + m.payload.len()) as int) =~= s.skip((t.len() + n.len()) as int));
    assert(w.skip((t.len() + n.len()) as int) =~= m.payload);
}

/// A message that was read stands where it was read.
pub proof fn lemma_message_read(b: Seq<u8>, i: nat)
    ensures
        sei_message_at(b, i) matches Ok((m, j)) ==> i + 2 <= j <= b.len() && b.subrange(i as int, j as int)
            == sei_message_bytes(m),
{
    lemma_ff_read(b, i);
    if let Ok((t, j)) = ff_at(b, i) {
        lemma_ff_read(b, j);
        if let Ok((n, k)) = ff_at(b, j) {
            if k + n <= b.len() {
                assert(
                    b.subrange(
                        i as int,
                        (k + n) as int,
                    ) =~= b.subrange(i as int, j as int) + b.subrange(j as int, k as int) + b.subrange(k as int, (k + n) as int)
                );
            }
        }
    }
}

proof fn lemma_messages_bytes_cons(m: SeiMessageModel, ms: Seq<SeiMessageModel>)
    ensures
        sei_messages_bytes(seq![m] + ms) == sei_message_bytes(m) + sei_messages_bytes(ms),
    decreases ms.len(),
{
    let all = seq![m] + ms;
    if ms.len() == 0 {
        assert(all.drop_last() =~= Seq::empty());
        assert(all.last() == m);
        assert(sei_messages_bytes(all.drop_last()) =~= Seq::empty());
        assert(sei_messages_bytes(all) =~= sei_message_bytes(m) + sei_messages_bytes(ms));
    } else {
        lemma_messages_bytes_cons(m, ms.drop_last());
        assert(all.drop_last() =~= seq![m] + ms.drop_last());
        assert(all.last() == ms.last());
        assert(sei_messages_bytes(all) =~= sei_message_bytes(m) + sei_messages_bytes(ms));
    }
}

proof fn lemma_message_bytes_len(m: SeiMessageModel)
    ensures
        sei_message_bytes(m).len() >= 2,
{
    assert(ff_bytes(m.payload_type as nat).len() > 0);
    assert(ff_bytes(m.payload.len()).len() > 0);
}

/// Messages that stand in `b` from byte `i` on, with the byte of the trailing
/// bits behind them, are read there.
proof fn lemma_rbsp_written(b: Seq<u8>, i: nat, ms: Seq<SeiMessageModel>)
    requires
        ms.len() > 0,
        i + sei_messages_bytes(ms).len() + 1 == b.len(),
        b.skip(i as int) == sei_messages_bytes(ms) + seq![0x80u8],
    ensures
        sei_rbsp_at(b, i) == Ok::<(Seq<SeiMessageModel>, nat), Fault>((ms, (b.len() - 1) as nat)),
    decreases ms.len(),
{
    let m = ms.first();
    let rest = ms.skip(1);
    assert(ms =~= seq![m] + rest);
    lemma_messages_bytes_cons(m, rest);
    let w = sei_message_bytes(m);
    let whole = sei_messages_bytes(ms) + seq![0x80u8];
    assert(b.subrange(i as int, (i + w.len()) as int) =~= b.skip(i as int).take(w.len() as int));
    assert(whole.take(w.len() as int) =~= w);
    lemma_message_written(b, i, m);
    lemma_sei_message_end(b, i);
    let j = i + w.len();
    assert(b.skip(j as int) =~= b.skip(i as int).skip(w.len() as int));
    assert(whole.skip(w.len() as int) =~= sei_messages_bytes(rest) + seq![0x80u8]);
    assert(b[b.len() - 1] == 0x80) by {
        assert(b.skip(i as int)[b.len() - 1 - i] == 0x80);
    }
    if rest.len() == 0 {
        assert(rest =~= Seq::empty());
        assert(seq![m] + rest =~= seq![m]);
        assert(sei_done(b, j));
    } else {
        lemma_message_bytes_len(rest.first());
        assert(rest =~= seq![rest.first()] + rest.skip(1));
        lemma_messages_bytes_cons(rest.first(), rest.skip(1));
        assert(j + 2 < b.len());
        assert(!zeros_from(b, j) && !zeros_from(b, j + 1));
        lemma_rbsp_written(b, j, rest);
    }
}

proof fn lemma_rbsp_read(b: Seq<u8>, i: nat)
    requires
        i <= b.len(),
    ensures
        sei_rbsp_at(b, i) matches Ok((ms, q)) ==> {
            &&& ms.len() > 0
            &&& i <= q <= b.len()
            &&& b.subrange(i as int, q as int) == sei_messages_bytes(ms)
            &&& sei_done(b, q)
        },
    decreases b.len() - i,
{
    lemma_message_read(b, i);
    if let Ok((m, j)) = sei_message_at(b, i) {
        if sei_done(b, j) {
            lemma_messages_bytes_cons(m, Seq::empty());
            assert(seq![m] + Seq::<SeiMessageModel>::empty() =~= seq![m]);
            assert(b.subrange(i as int, j as int) =~= sei_messages_bytes(seq![m]));
        } else {
            lemma_rbsp_read(b, j);
            if let Ok((ms, q)) = sei_rbsp_at(b, j) {
                lemma_messages_bytes_cons(m, ms);
                assert(
                    b.subrange(
                        i as int,
                        q as int,
                    ) =~= b.subrange(i as int, j as int) + b.subrange(j as int, q as int)
                );
            }
        }
    }
}

/// Messages that stand in `b` from byte `i` on are read there.
pub proof fn lemma_messages_written(b: Seq<u8>, i: nat, ms: Seq<SeiMessageModel>)
    requires
        i + sei_messages_bytes(ms).len() <= b.len(),
        b.subrange(i as int, (i + sei_messages_bytes(ms).len()) as int) == sei_messages_bytes(ms),
    ensures
        sei_messages_at(b, i, ms.len()) == Ok::<(Seq<SeiMessageModel>, nat), Fault>(
            (ms, i + sei_messages_bytes(ms).len()),
        ),
    decreases ms.len(),
{
    if ms.len() == 0 {
        assert(ms =~= Seq::empty());
    } else {
        let d = ms.drop_last();
        let head = sei_messages_bytes(d);
        let w = sei_message_bytes(ms.last());
        let all = sei_messages_bytes(ms);
        let s = b.subrange(i as int, (i + all.len()) as int);
        assert(b.subrange(i as int, (i + head.len()) as int) =~= s.take(head.len() as int));
        assert(all.take(head.len() as int) =~= head);
        lemma_messages_written(b, i, d);
        let j = i + head.len();
        assert(b.subrange(j as int, (j + w.len()) as int) =~= s.skip(head.len() as int));
        assert(all.skip(head.len() as int) =~= w);
        lemma_message_written(b, j, ms.last());
        assert(d.push(ms.last()) =~= ms);
    }
}

/// Messages that were read stand where they were read.
pub proof fn lemma_messages_read(b: Seq<u8>, i: nat, n: nat)
    requires
        i <= b.len(),
    ensures
        sei_messages_at(b, i, n) matches Ok((ms, j)) ==> {
            &&& ms.len() == n
            &&& i <= j <= b.len()
            &&& b.subrange(i as int, j as int) == sei_messages_bytes(ms)
        },
    decreases n,
{
    if n == 0 {
        assert(b.subrange(i as int, i as int) =~= Seq::empty());
    } else {
        lemma_messages_read(b, i, (n - 1) as nat);
        if let Ok((d, q)) = sei_messages_at(b, i, (n - 1) as nat) {
            lemma_message_read(b, q);
            if let Ok((m, j)) = sei_message_at(b, q) {
                assert(d.push(m).drop_last() =~= d);
                assert(b.subrange(i as int, j as int) =~= b.subrange(i as int, q as int) + b.subrange(
                    q as int,
                    j as int,
                ));
            }
        }
    }
}

/// What was written parses back: at least one message, framed one behind the
/// other and closed by the byte of the trailing bits, comes back as it was.
pub proof fn law_parse_written_sei(ms: Seq<SeiMessageModel>)
    requires
        ms.len() > 0,
    ensures
        sei_messages_of(sei_messages_bytes(ms) + seq![0x80u8]) == Ok::<Seq<SeiMessageModel>, Fault>(ms),
{
    let b = sei_messages_bytes(ms) + seq![0x80u8];
    assert(b.skip(0) =~= b);
    lemma_rbsp_written(b, 0, ms);
}

/// Writing what was parsed gives the RBSP back: the messages of an RBSP are its
/// bytes up to the end of the last message, so that an RBSP with the single
/// byte 0x80 behind its last message is written again as it was.
pub proof fn law_write_parsed_sei(b: Seq<u8>)
    ensures
        sei_rbsp_at(b, 0) matches Ok((ms, q)) ==> {
            &&& ms.len() > 0
            &&& q <= b.len()
            &&& b.take(q as int) == sei_messages_bytes(ms)
            &&& sei_done(b, q)
            &&& b.skip(q as int) == seq![0x80u8] ==> sei_messages_bytes(ms) + seq![0x80u8] == b
        },
{
    lemma_rbsp_read(b, 0);
    if let Ok((ms, q)) = sei_rbsp_at(b, 0) {
        assert(b.take(q as int) =~= b.subrange(0, q as int));
        assert(b =~= b.take(q as int) + b.skip(q as int));
    }
}

/// A number at byte `*i`, which moves behind it. An error calls it by `name`.
fn read_ff(b: &[u8], i: &mut usize, name: &str) -> (res: Result<u128, BitstreamError>)
    requires
        *old(i) <= b@.len(),
    ensures
        match ff_at(b@, *old(i) as nat) {
            Ok((v, j)) => res == Ok::<u128, BitstreamError>(v as u128)
                && *final(i) == j
                && v <= u128::MAX / 4,
            Err(f) => res matches Err(e) && e.fault() == f,
        },
{
    let ghost start = *i;
    let mut v: u128 = 0;
    proof {
        lemma_ff_end(b@, start as nat);
    }
    while *i < b.len() && b[*i] == 255
        invariant
            start == *old(i),
            start <= *i <= b@.len(),
            v == 255 * (*i - start),
            match ff_at(b@, start as nat) {
                Ok((w, j)) => ff_at(b@, *i as nat) == Ok::<(nat, nat), Fault>(((w - v) as nat, j)) && w >= v,
                Err(f) => ff_at(b@, *i as nat) == Err::<(nat, nat), Fault>(f),
            },
        decreases b@.len() - *i,
    {
        v = v + 255;
        *i = *i + 1;
    }
    if *i >= b.len() {
        return Err(Message::new("SEI message truncated in ").with(name).unexpected_end());
    }
    v = v + b[*i] as u128;
    *i = *i + 1;
    Ok(v)
}

/// Parse one `sei_message()` starting at `*i`, advancing `*i` past
/// it.
pub(crate) fn parse_one_sei_message(rbsp: &[u8], i: &mut usize) -> (res: Result<SeiMessage, BitstreamError>)
    requires
        *old(i) <= rbsp@.len(),
    ensures
        match sei_message_at(rbsp@, *old(i) as nat) {
            Ok((m, j)) => res matches Ok(v) && v@ == m && *final(i) == j && j <= rbsp@.len(),
            Err(f) => res matches Err(e) && e.fault() == f,
        },
{
    proof {
        lemma_sei_message_end(rbsp@, *i as nat);
        lemma_ff_end(rbsp@, *i as nat);
    }
    let payload_type = read_ff(rbsp, i, "payloadType")?;
    proof {
        lemma_ff_end(rbsp@, *i as nat);
    }
    let payload_size = read_ff(rbsp, i, "payloadSize")?;
    let left: usize = rbsp.len() - *i;
    if payload_size > left as u128 {
        return Err(
            Message::new("SEI payloadSize=")
                .num(payload_size as i128)
                .with(" overruns RBSP (")
                .num(left as i128)
                .with(" bytes left)")
                .unexpected_end(),
        );
    }
    if payload_type > u32::MAX as u128 {
        return Err(BitstreamError::invalid("SEI payloadType exceeds u32"));
    }
    let end: usize = *i + payload_size as usize;
    let payload = copy_bytes(rbsp, *i, end);
    *i = end;
    Ok(SeiMessage { payload_type: payload_type as u32, payload })
}

/// Parses `n` messages from byte `*i` on.
pub(crate) fn parse_sei_messages(
    b: &[u8],
    i: &mut usize,
    n: u64,
) -> (res: Result<Vec<SeiMessage>, BitstreamError>)
    requires
        *old(i) <= b@.len(),
    ensures
        match sei_messages_at(b@, *old(i) as nat, n as nat) {
            Ok((ms, j)) => res matches Ok(v) && seq_view(v@) == ms && *final(i) == j && j <= b@.len(),
            Err(f) => res matches Err(e) && e.fault() == f,
        },
{
    let ghost reads = |done: Seq<SeiMessageModel>, q: nat| sei_message_at(b@, q);
    let ghost start = *i as nat;
    let mut out: Vec<SeiMessage> = Vec::new();
    let mut k: u64 = 0;
    proof {
        assert(seq_view(out@) =~= Seq::empty());
    }
    while k < n
        invariant
            k <= n,
            *i <= b@.len(),
            start == *old(i),
            reads == (|done: Seq<SeiMessageModel>, q: nat| sei_message_at(b@, q)),
            rep_at(reads, start, k as nat) == Ok::<(Seq<SeiMessageModel>, nat), Fault>(
                (seq_view(out@), *i as nat),
            ),
        decreases n - k,
    {
        proof {
            if rep_at(reads, start, (k + 1) as nat) is Err {
                lemma_rep_err(reads, start, (k + 1) as nat, n as nat);
            }
        }
        let m = parse_one_sei_message(b, i)?;
        proof {
            lemma_seq_view_push(out@, m);
        }
        out.push(m);
        k = k + 1;
    }
    Ok(out)
}

/// The bytes `i..end` of `b`.
pub(crate) fn copy_bytes(b: &[u8], i: usize, end: usize) -> (v: Vec<u8>)
    requires
        i <= end <= b@.len(),
    ensures
        v@ == b@.subrange(i as int, end as int),
{
    let mut v: Vec<u8> = Vec::new();
    let mut k: usize = i;
    while k < end
        invariant
            i <= k <= end <= b@.len(),
            v@ == b@.subrange(i as int, k as int),
        decreases end - k,
    {
        v.push(b[k]);
        proof {
            assert(v@ =~= b@.subrange(i as int, (k + 1) as int));
        }
        k = k + 1;
    }
    v
}

/// Whether no message follows at byte `i`.
fn is_done(b: &[u8], i: usize) -> (done: bool)
    requires
        i <= b@.len(),
    ensures
        done == sei_done(b@, i as nat),
{
    if i >= b.len() {
        return true;
    }
    let mut k: usize = i + 1;
    while k < b.len()
        invariant
            i < k <= b@.len(),
            forall|j: int| i < j < k ==> #[trigger] b@[j] == 0,
        decreases b@.len() - k,
    {
        if b[k] != 0 {
            return false;
        }
        k = k + 1;
    }
    proof {
        assert(zeros_from(b@, (i + 1) as nat));
        assert(b@[i as int] == 0 ==> zeros_from(b@, i as nat));
    }
    b[i] == 0 || b[i] == 0x80
}

/// Split an SEI RBSP into raw messages; declared sizes are
/// validated against the remaining bytes before slicing.
pub fn parse_sei_rbsp(rbsp: &[u8]) -> (res: Result<Vec<SeiMessage>, BitstreamError>)
    ensures
        match sei_messages_of(rbsp@) {
            Ok(ms) => res matches Ok(v) && seq_view(v@) == ms,
            Err(f) => res matches Err(e) && e.fault() == f,
        },
{
    let mut out: Vec<SeiMessage> = Vec::new();
    let mut i: usize = 0;
    proof {
        assert(seq_view(out@) =~= Seq::empty());
        if let Ok((ms, q)) = sei_rbsp_at(rbsp@, 0) {
            assert(seq_view(out@) + ms =~= ms);
        }
    }
    loop
        invariant
            i <= rbsp@.len(),
            match sei_rbsp_at(rbsp@, i as nat) {
                Ok((ms, q)) => sei_messages_of(rbsp@) == Ok::<Seq<SeiMessageModel>, Fault>(
                    seq_view(out@) + ms,
                ),
                Err(f) => sei_messages_of(rbsp@) == Err::<Seq<SeiMessageModel>, Fault>(f),
            },
        decreases rbsp@.len() - i,
    {
        let ghost start = i;
        let ghost before = out@;
        proof {
            lemma_sei_message_end(rbsp@, i as nat);
        }
        let m = parse_one_sei_message(rbsp, &mut i)?;
        proof {
            lemma_seq_view_push(before, m);
        }
        out.push(m);
        if is_done(rbsp, i) {
            proof {
                assert(seq_view(before) + seq![m@] =~= seq_view(out@));
            }
            return Ok(out);
        }
        proof {
            if let Ok((ms, q)) = sei_rbsp_at(rbsp@, i as nat) {
                assert(seq_view(before) + (seq![m@] + ms) =~= seq_view(out@) + ms);
            }
        }
    }
}

/// Appends the bytes of a number.
fn write_ff(out: &mut Vec<u8>, v: usize)
    ensures
        final(out)@ == old(out)@ + ff_bytes(v as nat),
{
    let ghost before = out@;
    let mut t: usize = v;
    proof {
        assert(out@ + ff_bytes(v as nat) =~= before + ff_bytes(v as nat));
    }
    while t >= 255
        invariant
            out@ + ff_bytes(t as nat) == before + ff_bytes(v as nat),
        decreases t,
    {
        let ghost prev = out@;
        out.push(255);
        proof {
            assert(out@ + ff_bytes((t - 255) as nat) =~= prev + ff_bytes(t as nat));
        }
        t = t - 255;
    }
    let ghost prev = out@;
    out.push(t as u8);
    proof {
        assert(out@ =~= prev + ff_bytes(t as nat));
    }
}

/// Emit one `sei_message()` framing into `out`.
pub fn write_sei_message(out: &mut Vec<u8>, msg: &SeiMessage)
    ensures
        final(out)@ == old(out)@ + sei_message_bytes(msg@),
{
    let ghost before = out@;
    write_ff(out, msg.payload_type as usize);
    write_ff(out, msg.payload.len());
    let mut payload = copy_bytes(msg.payload.as_slice(), 0, msg.payload.len());
    out.append(&mut payload);
    proof {
        assert(out@ =~= before + sei_message_bytes(msg@));
    }
}

/// Appends messages, one behind the other.
pub(crate) fn write_sei_messages(out: &mut Vec<u8>, messages: &[SeiMessage])
    ensures
        final(out)@ == old(out)@ + sei_messages_bytes(seq_view(messages@)),
{
    let ghost before = out@;
    let ghost ms = seq_view(messages@);
    let mut i: usize = 0;
    proof {
        assert(ms.take(0) =~= Seq::empty());
        assert(out@ =~= before + sei_messages_bytes(ms.take(0)));
    }
    while i < messages.len()
        invariant
            i <= messages@.len(),
            ms == seq_view(messages@),
            out@ == before + sei_messages_bytes(ms.take(i as int)),
        decreases messages@.len() - i,
    {
        write_sei_message(out, &messages[i]);
        proof {
            assert(ms.take(i + 1).drop_last() =~= ms.take(i as int));
            assert(ms.take(i + 1).last() == messages@[i as int]@);
            assert(out@ =~= before + sei_messages_bytes(ms.take(i + 1)));
        }
        i = i + 1;
    }
    proof {
        assert(ms.take(i as int) =~= ms);
    }
}

/// A full SEI RBSP, with `rbsp_trailing_bits()`. An error names `section` as the
/// place that asks for a message.
pub(crate) fn sei_rbsp(messages: &[SeiMessage], section: &str) -> (res: Result<Vec<u8>, BitstreamError>)
    ensures
        match res {
            Ok(v) => messages@.len() > 0 && v@ == sei_messages_bytes(seq_view(messages@)) + seq![0x80u8],
            Err(e) => messages@.len() == 0 && e.fault() == Fault::Invalid,
        },
{
    if messages.len() == 0 {
        return Err(
            Message::new("sei_rbsp() requires at least one sei_message() (")
                .with(section)
                .with(")")
                .invalid(),
        );
    }
    let mut out: Vec<u8> = Vec::new();
    write_sei_messages(&mut out, messages);
    out.push(0x80);
    proof {
        assert(out@ =~= sei_messages_bytes(seq_view(messages@)) + seq![0x80u8]);
    }
    Ok(out)
}

// ─────────────────────────── Payload alignment ──────────────────────────────

/// `a` closed as a `sei_payload()`: a one bit and zero bits up to a byte boundary,
/// unless it ends on one.
pub open spec fn put_payload_end(a: Seq<bool>) -> Seq<bool> {
    if a.len() % 8 == 0 {
        a
    } else {
        put_trailing(a)
    }
}

/// The end of a `sei_payload()` at position `p`: nothing may follow but the
/// closing bits.
pub open spec fn payload_end_at(s: Seq<bool>, p: nat) -> Result<nat, Fault> {
    if p > s.len() {
        Err(Fault::End)
    } else if s == put_payload_end(upto(s, p)) {
        Ok(s.len())
    } else {
        Err(Fault::Invalid)
    }
}

/// A value read from the start of a payload that ends behind it.
pub open spec fn payload_read<T>(s: Seq<bool>, got: Read<T>) -> Result<T, Fault> {
    match got {
        Err(f) => Err(f),
        Ok((x, p)) => match payload_end_at(s, p) {
            Err(f) => Err(f),
            Ok(_) => Ok(x),
        },
    }
}

/// What an encoder of a payload promises: it succeeds if and only if `can`, and
/// then returns the message of type `t` whose payload has the bits `want`.
pub open spec fn payload_write_is(
    can: bool,
    t: u32,
    want: Seq<bool>,
    got: Result<SeiMessage, BitstreamError>,
) -> bool {
    match got {
        Ok(m) => can && m.payload_type == t && bits_of(m.payload@) == want,
        Err(e) => !can && e.fault() == Fault::Invalid,
    }
}

/// Consume the `sei_payload()` tail: when the syntax left the reader
/// off a byte boundary, a `payload_bit_equal_to_one` plus
/// `payload_bit_equal_to_zero` padding must follow; either way the
/// payload must then be fully consumed. Reserved
/// payload-extension data is rejected. An error about a short payload calls it by
/// `what`.
pub(crate) fn read_payload_alignment(r: &mut BitReader<'_>, what: &str) -> (res: Result<(), BitstreamError>)
    ensures
        final(r).bits() == old(r).bits(),
        final(r).bytes() == old(r).bytes(),
        match payload_end_at(old(r).bits(), old(r).pos()) {
            Ok(p) => res is Ok,
            Err(f) => res matches Err(e) && e.fault() == f,
        },
{
    let ghost s = r.bits();
    let ghost p = r.pos();
    let pos = r.bit_pos();
    let total = r.total_bits();
    if pos > total {
        return Err(Message::new(what).with(" payload too short").unexpected_end());
    }
    proof {
        lemma_bits_of_len(r.bytes());
        assert(upto(s, p) =~= s.take(p as int)) by {
            reveal(upto);
        }
    }
    if pos % 8 == 0 {
        proof {
            assert(p == s.len() ==> upto(s, p) =~= s);
        }
        if pos != total {
            return Err(
                BitstreamError::invalid(
                    "sei_payload: trailing bytes after the payload syntax (unsupported payload-extension data, §D.2.1)",
                ),
            );
        }
        return Ok(());
    }
    let error = closing_error(r, pos);
    match r.read_rbsp_trailing_bits() {
        Ok(()) => Ok(()),
        Err(_) => {
            proof {
                reveal(trailing_at);
            }
            Err(error)
        },
    }
}

/// What is wrong with the closing bits at position `pos`, if they are not a one bit,
/// and zero bits up to a byte boundary, with nothing behind them.
fn closing_error(r: &BitReader<'_>, pos: u128) -> (e: BitstreamError)
    requires
        pos < r.bits().len(),
    ensures
        e.fault() == Fault::Invalid,
{
    let total = r.total_bits();
    if !r.bit_at(pos) {
        return BitstreamError::invalid("sei_payload: payload_bit_equal_to_one was 0 (§D.2.1)");
    }
    let mut i: u128 = pos + 1;
    while i < total && i % 8 != 0
        invariant
            i <= total,
            total == r.bits().len(),
        decreases total - i,
    {
        if r.bit_at(i) {
            return BitstreamError::invalid("sei_payload: payload_bit_equal_to_zero was 1 (§D.2.1)");
        }
        i = i + 1;
    }
    BitstreamError::invalid(
        "sei_payload: trailing bytes after the payload syntax (unsupported payload-extension data, §D.2.1)",
    )
}

/// Close an encoded `sei_payload()`: append the alignment
/// (`1` + zero padding) when the syntax ended off a byte boundary.
pub fn finish_payload(w: BitWriter) -> (out: Vec<u8>)
    ensures
        bits_of(out@) == put_payload_end(w@),
{
    let mut w = w;
    if !w.byte_aligned() {
        w.write_rbsp_trailing_bits();
    }
    proof {
        broadcast use lemma_trailing_aligned;

        lemma_pad_aligned(w@);
    }
    w.finish()
}

/// A payload that reads as `x` up to its end is the closed bits of `x`, if
/// writing gives back what was read.
pub proof fn lemma_payload_end(s: Seq<bool>, p: nat)
    requires
        payload_end_at(s, p) is Ok,
        s.len() < POS_CAP,
    ensures
        within(s, p),
        put_payload_end(upto(s, p)) == s,
{
    reveal(within);
}

/// Closed bits end behind the bits that they close.
pub proof fn lemma_payload_closed(a: Seq<bool>, s: Seq<bool>)
    requires
        s == put_payload_end(a),
        s.len() < POS_CAP,
    ensures
        pre(a, s),
        payload_end_at(s, a.len()) == Ok::<nat, Fault>(s.len()),
{
    lemma_trailing_shape(a);
    reveal(pre);
    reveal(upto);
    assert(upto(s, a.len()) =~= a);
}

/// A number is coded as bytes 255, each of which counts for itself, and a smaller
/// byte behind them.
pub proof fn law_ff_number(b: Seq<u8>, i: nat, k: nat)
    requires
        i + k <= b.len(),
        forall|j: int| i <= j < i + k ==> #[trigger] b[j] == 255,
    ensures
        i + k == b.len() ==> ff_at(b, i) == Err::<(nat, nat), Fault>(Fault::End),
        i + k < b.len() && b[(i + k) as int] != 255 ==> ff_at(b, i) == Ok::<(nat, nat), Fault>(
            (255 * k + b[(i + k) as int] as nat, i + k + 1),
        ),
    decreases k,
{
    if k > 0 {
        assert(b[i as int] == 255);
        law_ff_number(b, i + 1, (k - 1) as nat);
    }
}

/// A message is the number of its type, the number of its bytes, and its bytes.
pub proof fn law_layout_sei_message(b: Seq<u8>, i: nat, m: SeiMessageModel, j: nat)
    ensures
        sei_message_at(b, i) == Ok::<(SeiMessageModel, nat), Fault>((m, j)) <==> ({
            &&& j <= b.len()
            &&& ff_at(b, i) matches Ok((t, at)) && t == m.payload_type && (ff_at(b, at) matches Ok((n, at))
                && n == m.payload.len() && j == at + n && m.payload == b.subrange(at as int, j as int))
        }),
{
    if let Ok((t, at)) = ff_at(b, i) {
        lemma_ff_behind(b, i);
        if let Ok((n, at)) = ff_at(b, at) {
            if at + n <= b.len() {
                assert(b.subrange(at as int, (at + n) as int).len() == n);
            }
        }
    }
}

proof fn lemma_ff_behind(b: Seq<u8>, i: nat)
    ensures
        ff_at(b, i) matches Ok((_, j)) ==> i < j <= b.len(),
    decreases b.len() - i,
{
    if i < b.len() && b[i as int] == 255 {
        lemma_ff_behind(b, i + 1);
    }
}

/// Messages follow one another up to the byte 0x80 of the trailing bits, behind which
/// there are only zero bytes; both may be missing.
#[verifier::rlimit(50)]
#[verifier::spinoff_prover]
pub proof fn law_layout_sei_rbsp(b: Seq<u8>, i: nat, ms: Seq<SeiMessageModel>, q: nat)
    requires
        i <= b.len(),
    ensures
        sei_rbsp_at(b, i) == Ok::<(Seq<SeiMessageModel>, nat), Fault>((ms, q)) <==> ({
            &&& ms.len() >= 1
            &&& sei_message_at(b, i) matches Ok((m, j)) && ms[0] == m && {
                let zeros = forall|k: int| j <= k < b.len() ==> #[trigger] b[k] == 0;
                let stop = j < b.len() && b[j as int] == 0x80 && forall|k: int|
                    j < k < b.len() ==> #[trigger] b[k] == 0;
                if zeros || stop {
                    ms.len() == 1 && q == j
                } else {
                    sei_rbsp_at(b, j) == Ok::<(Seq<SeiMessageModel>, nat), Fault>((ms.skip(1), q))
                }
            }
        }),
        sei_messages_of(b) == match sei_rbsp_at(b, 0) {
            Ok((xs, _)) => Ok::<Seq<SeiMessageModel>, Fault>(xs),
            Err(f) => Err(f),
        },
{
    if let Ok((m, j)) = sei_message_at(b, i) {
        law_layout_sei_message(b, i, m, j);
        if ms.len() >= 1 {
            assert(ms =~= seq![ms[0]] + ms.skip(1));
        }
        if ms.len() == 1 {
            assert(ms =~= seq![ms[0]]);
        }
        if let Ok((rest, r)) = sei_rbsp_at(b, j) {
            assert((seq![m] + rest).skip(1) =~= rest);
        }
        assert(
            sei_done(b, j)
                <==> zeros_from(b, j)
                || (j < b.len() && b[j as int] == 0x80 && zeros_from(b, j + 1))
        );
        if j < b.len() && b[j as int] == 0x80 && forall|k: int| j < k < b.len() ==> #[trigger] b[k] == 0 {
            assert(zeros_from(b, j + 1));
        }
    }
}

/// A payload is closed by nothing at a byte boundary, and else by a one bit and zero
/// bits up to the next one.
#[verifier::rlimit(50)]
#[verifier::spinoff_prover]
pub proof fn law_payload_end(s: Seq<bool>, p: nat)
    requires
        p <= s.len(),
    ensures
        payload_end_at(s, p) is Ok <==> s == put_payload_end(upto(s, p)),
        s == put_payload_end(upto(s, p)) <==> if p % 8 == 0 {
            s.len() == p
        } else {
            &&& p < s.len() < p + 8 && s.len() % 8 == 0
            &&& s[p as int]
            &&& forall|k: int| p < k < s.len() ==> !#[trigger] s[k]
        },
{
    reveal(upto);
    let a = upto(s, p);
    if p % 8 == 0 {
        if s.len() == p {
            assert(a =~= s);
        }
    } else {
        let n = pad_len((p + 1) as nat);
        let b = a.push(true);
        lemma_put_zeros(b, n);
        lemma_put_u_shape(b, 0, n);
        let t = put_trailing(a);
        assert forall|k: int| 0 <= k <= p implies #[trigger] t[k] == b[k] by {
            assert(t.take(b.len() as int)[k] == t[k]);
        }
        assert(t == put_u(b, 0, n));
        assert(t.len() == p + 1 + n);
        assert((p + 1 + n) % 8 == 0);
        if p < s.len() < p + 8 && s.len() % 8 == 0 {
            assert(s.len() == p + 1 + n);
        }
        if p < s.len() < p + 8 && s.len() % 8 == 0 && s[p as int] && forall|k: int|
            p < k < s.len() ==> !#[trigger] s[k] {
            assert(s =~= t);
        }
        if s == t {
            assert(t[p as int]);
            assert forall|k: int| p < k < s.len() implies !#[trigger] s[k] by {}
        }
    }
}

/// Each field of the model of a [`SeiMessage`] is the field of that name.
pub proof fn law_fields_of_sei_message(x: SeiMessage)
    ensures
        x@.payload_type == x.payload_type,
        x@.payload == x.payload@,
{
}

} // verus!
