//! The end of an RBSP: extension data and `rbsp_trailing_bits()`.
use crate::bit_reader::{BitReader, read_view_is};
use crate::bit_writer::{BitWriter, write_is};
use crate::bits::{POS_CAP, adv, ext_data_at, more_data, put_tail, tail_at, tail_can, u8_at};
use crate::message::Message;
use crate::BitstreamError;
use vstd::prelude::*;

verus! {

proof fn lemma_ext_data_step(s: Seq<bool>, p: nat, q: nat, x: Seq<u8>)
    requires
        more_data(s, q),
        p <= q,
        ext_data_at(s, p) == (x + ext_data_at(s, q).0, ext_data_at(s, q).1),
    ensures
        ext_data_at(s, p) == (
            x.push(u8_at(s, q, 1)) + ext_data_at(s, q + 1).0,
            ext_data_at(s, q + 1).1,
        ),
{
    let b = u8_at(s, q, 1);
    let rest = ext_data_at(s, q + 1).0;
    assert(x + (seq![b] + rest) =~= x.push(b) + rest);
}

/// Parses extension data bits if `c`, and `rbsp_trailing_bits()`.
pub fn parse_tail(r: &mut BitReader<'_>, c: bool) -> (res: Result<Vec<u8>, BitstreamError>)
    ensures
        read_view_is(tail_at(old(r).bits(), old(r).pos(), c), res, *old(r), *final(r)),
{
    let ghost s = r.bits();
    let ghost p = r.pos();
    proof {
        reveal(tail_at);
    }
    let total = r.total_bits();
    let mut data: Vec<u8> = Vec::new();
    if c {
        proof {
            assert(Seq::<u8>::empty() + ext_data_at(s, p).0 =~= ext_data_at(s, p).0);
        }
        while r.more_rbsp_data()
            invariant
                s == r.bits(),
                r.bytes() == old(r).bytes(),
                total == s.len(),
                total < POS_CAP,
                p <= r.pos(),
                ext_data_at(s, p) == (data@ + ext_data_at(s, r.pos()).0, ext_data_at(s, r.pos()).1),
            decreases s.len() - r.pos(),
        {
            proof {
                reveal(adv);
                let i = choose|i: int| r.pos() < i < s.len() && #[trigger] s[i];
                lemma_ext_data_step(s, p, r.pos(), data@);
            }
            data.push(r.bit());
        }
        proof {
            assert(data@ + Seq::<u8>::empty() =~= data@);
        }
    }
    r.read_rbsp_trailing_bits()?;
    Ok(data)
}

/// Emits extension data bits if `c`, and `rbsp_trailing_bits()`. An error speaks of
/// the data as `name`, which `needs` something to be coded.
pub fn write_tail(
    w: &mut BitWriter,
    data: &Vec<u8>,
    c: bool,
    name: &str,
    needs: &str,
) -> (res: Result<(), BitstreamError>)
    ensures
        write_is(tail_can(data@, c), put_tail(old(w)@, data@, c), res, final(w)@),
{
    proof {
        reveal(put_tail);
        reveal(tail_can);
    }
    if c {
        if data.len() > 0 && data[data.len() - 1] == 0 {
            return Err(Message::new(name)
                .with(
                    " must end in a 1 bit — a trailing 0 is indistinguishable from rbsp_trailing_bits padding under more_rbsp_data() (7.2)",
                )
                .invalid());
        }
        w.write_bitlist(data.as_slice());
    } else if data.len() > 0 {
        return Err(Message::new(name).with(" requires ").with(needs).invalid());
    }
    w.write_rbsp_trailing_bits();
    Ok(())
}

} // verus!
