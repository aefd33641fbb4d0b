//! Byte-aligned start codes `00 00 01 XX`, as MPEG-2 and VC-1 use them.
use vstd::prelude::*;

verus! {

/// A start code `00 00 01 XX` stands at position `i`.
pub open spec fn code_at(b: Seq<u8>, i: int) -> bool {
    i + 3 < b.len() && b[i] == 0 && b[i + 1] == 0 && b[i + 2] == 1
}

/// The position of the first start code from `i` on, the end if there is none.
pub open spec fn next_code(b: Seq<u8>, i: int) -> int
    decreases b.len() - i,
{
    if i >= b.len() {
        b.len() as int
    } else if code_at(b, i) {
        i
    } else {
        next_code(b, i + 1)
    }
}

pub proof fn lemma_next_code(b: Seq<u8>, i: int)
    requires
        0 <= i <= b.len(),
    ensures
        i <= next_code(b, i) <= b.len(),
        next_code(b, i) < b.len() ==> code_at(b, next_code(b, i)),
        forall|k: int| i <= k < next_code(b, i) ==> !#[trigger] code_at(b, k),
    decreases b.len() - i,
{
    if i < b.len() && !code_at(b, i) {
        lemma_next_code(b, i + 1);
    }
}

/// The positions of the start codes from `i` on; the search goes on behind each.
pub open spec fn codes_from(b: Seq<u8>, i: int) -> Seq<int>
    decreases b.len() - i,
    when 0 <= i <= b.len()
    via codes_decreases
{
    let e = next_code(b, i);
    if e >= b.len() {
        Seq::empty()
    } else {
        seq![e] + codes_from(b, e + 4)
    }
}

#[via_fn]
proof fn codes_decreases(b: Seq<u8>, i: int) {
    lemma_next_code(b, i);
}

/// The start code at `i` is found: it is one of `codes`, or its first byte is the last
/// byte of one of them.
pub open spec fn found(codes: Seq<int>, i: int) -> bool {
    exists|k: int| 0 <= k < codes.len() && (#[trigger] codes[k] == i || codes[k] + 3 == i)
}

/// Every position found is that of a start code, no two of them overlap, and every
/// start code is found but one that begins in the last byte of another.
pub proof fn law_codes_found(b: Seq<u8>, i: int)
    requires
        0 <= i <= b.len(),
    ensures
        forall|k: int|
            0 <= k < codes_from(b, i).len()
                ==> i <= #[trigger] codes_from(b, i)[k]
                && code_at(b, codes_from(b, i)[k]),
        forall|k: int, m: int|
            0 <= k < m < codes_from(b, i).len()
                ==> #[trigger] codes_from(b, i)[k] + 4 <= #[trigger] codes_from(b, i)[m],
        forall|j: int| i <= j && #[trigger] code_at(b, j) ==> found(codes_from(b, i), j),
    decreases b.len() - i,
{
    lemma_next_code(b, i);
    let e = next_code(b, i);
    let all = codes_from(b, i);
    if e < b.len() {
        let rest = codes_from(b, e + 4);
        law_codes_found(b, e + 4);
        assert(all == seq![e] + rest);
        assert forall|k: int| 0 <= k < all.len() implies i <= #[trigger] all[k] && code_at(b, all[k]) by {
            if k > 0 {
                assert(all[k] == rest[k - 1]);
            }
        }
        assert forall|k: int, m: int| 0 <= k < m < all.len() implies #[trigger] all[k] + 4 <= #[trigger] all[m] by {
            assert(all[m] == rest[m - 1]);
            if k > 0 {
                assert(all[k] == rest[k - 1]);
            }
        }
        assert forall|j: int| i <= j && #[trigger] code_at(b, j) implies found(all, j) by {
            if j < e + 4 {
                assert(code_at(b, e));
                assert(j == e || j == e + 3);
                assert(all[0] == e);
            } else {
                let k = choose|k: int| 0 <= k < rest.len() && (#[trigger] rest[k] == j || rest[k] + 3 == j);
                assert(all[k + 1] == rest[k]);
            }
        }
    } else {
        assert forall|j: int| i <= j && #[trigger] code_at(b, j) implies found(all, j) by {
            assert(j < next_code(b, i));
        }
    }
}

/// The position of the first start code from `i` on, the length of `buf` if there
/// is none.
pub(crate) fn find_code(buf: &[u8], i: usize) -> (e: usize)
    requires
        i <= buf@.len(),
    ensures
        e == next_code(buf@, i as int),
        i <= e <= buf@.len(),
        e < buf@.len() ==> e + 4 <= buf@.len() && code_at(buf@, e as int),
{
    let n: usize = buf.len();
    let mut k: usize = i;
    while n - k > 3
        invariant
            i <= k <= n,
            n == buf@.len(),
            next_code(buf@, i as int) == next_code(buf@, k as int),
        decreases n - k,
    {
        if buf[k] == 0 && buf[k + 1] == 0 && buf[k + 2] == 1 {
            return k;
        }
        k = k + 1;
    }
    proof {
        lemma_next_code(buf@, k as int);
    }
    n
}

/// A start code is `00 00 01` with a byte behind it, and the search finds the first.
pub proof fn law_next_code(b: Seq<u8>, i: int, j: int)
    requires
        0 <= i <= b.len(),
    ensures
        ({
            let e = next_code(b, i);
            let code = |k: int| k + 3 < b.len() && b[k] == 0 && b[k + 1] == 0 && b[k + 2] == 1;
            &&& i <= e <= b.len()
            &&& e < b.len() ==> code(e)
            &&& i <= j < e ==> !code(j)
        }),
        code_at(b, j) <==> j + 3 < b.len() && b[j] == 0 && b[j + 1] == 0 && b[j + 2] == 1,
{
    lemma_next_code(b, i);
    if i <= j < next_code(b, i) {
        assert(!code_at(b, j));
    }
}

} // verus!
