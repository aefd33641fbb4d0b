//! Scan orders of 8×8 blocks.
use vstd::prelude::*;

verus! {

// ─────────────────────────── Up-right diagonal scan ─────────────────────────

/// The next position of the 8×8 up-right diagonal scan: up and to the right
/// within a diagonal; behind its end, the lower left end of the next one.
pub open spec fn scan_step(p: (u8, u8)) -> (u8, u8) {
    if p.0 < 7 && p.1 > 0 {
        ((p.0 + 1) as u8, (p.1 - 1) as u8)
    } else {
        let d = p.0 + p.1 + 1;
        if d <= 7 {
            (0u8, d as u8)
        } else {
            ((d - 7) as u8, 7u8)
        }
    }
}

/// Position `i` of the 8×8 up-right diagonal scan, as `(x, y)`.
pub open spec fn scan_at(i: nat) -> (u8, u8)
    decreases i,
{
    if i == 0 {
        (0, 0)
    } else {
        scan_step(scan_at((i - 1) as nat))
    }
}

/// The number of positions before diagonal `d`.
pub open spec fn diagonal_start(d: int) -> int
    decreases d,
{
    if d <= 0 {
        0
    } else if d <= 8 {
        diagonal_start(d - 1) + d
    } else {
        diagonal_start(d - 1) + 16 - d
    }
}

/// The index of position `p` in the scan: the positions of the diagonals before
/// it, and the steps from the lower left end of its own.
pub open spec fn scan_index(p: (u8, u8)) -> int {
    let d = p.0 + p.1;
    diagonal_start(d) + if d <= 7 {
        p.0 as int
    } else {
        p.0 - (d - 7)
    }
}

proof fn lemma_diagonals()
    ensures
        diagonal_start(0) == 0,
        diagonal_start(1) == 1,
        diagonal_start(2) == 3,
        diagonal_start(3) == 6,
        diagonal_start(4) == 10,
        diagonal_start(5) == 15,
        diagonal_start(6) == 21,
        diagonal_start(7) == 28,
        diagonal_start(8) == 36,
        diagonal_start(9) == 43,
        diagonal_start(10) == 49,
        diagonal_start(11) == 54,
        diagonal_start(12) == 58,
        diagonal_start(13) == 61,
        diagonal_start(14) == 63,
{
    reveal_with_fuel(diagonal_start, 16);
}

proof fn lemma_scan_step(p: (u8, u8))
    requires
        p.0 <= 7,
        p.1 <= 7,
        p != (7u8, 7u8),
    ensures
        scan_step(p).0 <= 7,
        scan_step(p).1 <= 7,
        scan_index(scan_step(p)) == scan_index(p) + 1,
{
    lemma_diagonals();
}

/// The scan visits every position of the 8×8 block exactly once: the position
/// with index `i` is the one that is visited as number `i`, and every position
/// has an index below 64.
pub proof fn law_scan_visits_once(i: nat, p: (u8, u8))
    requires
        i < 64,
        p.0 <= 7,
        p.1 <= 7,
    ensures
        scan_at(i).0 <= 7,
        scan_at(i).1 <= 7,
        scan_index(scan_at(i)) == i,
        0 <= scan_index(p) < 64,
        scan_at(scan_index(p) as nat) == p,
{
    lemma_scan_inside(i);
    lemma_diagonals();
    lemma_scan_inside(scan_index(p) as nat);
    lemma_scan_index_injective(scan_at(scan_index(p) as nat), p);
}

proof fn lemma_scan_index_injective(p: (u8, u8), q: (u8, u8))
    requires
        p.0 <= 7,
        p.1 <= 7,
        q.0 <= 7,
        q.1 <= 7,
        scan_index(p) == scan_index(q),
    ensures
        p == q,
{
    lemma_diagonals();
}

pub proof fn lemma_scan_inside(i: nat)
    requires
        i < 64,
    ensures
        scan_at(i).0 <= 7,
        scan_at(i).1 <= 7,
        scan_index(scan_at(i)) == i,
    decreases i,
{
    lemma_diagonals();
    if i > 0 {
        lemma_scan_inside((i - 1) as nat);
        lemma_scan_step(scan_at((i - 1) as nat));
    }
}

// ─────────────────────────── Zig-zag scan ───────────────────────────────────

/// The next position of the zig-zag scan, which runs up even diagonals and down
/// odd ones.
pub open spec fn zigzag_step(p: (u8, u8)) -> (u8, u8) {
    let (x, y) = p;
    if (x + y) % 2 == 0 {
        if x >= 7 {
            (x, (y + 1) as u8)
        } else if y == 0 {
            ((x + 1) as u8, y)
        } else {
            ((x + 1) as u8, (y - 1) as u8)
        }
    } else {
        if y >= 7 {
            ((x + 1) as u8, y)
        } else if x == 0 {
            (x, (y + 1) as u8)
        } else {
            ((x - 1) as u8, (y + 1) as u8)
        }
    }
}

/// Position `i` of the zig-zag scan, as `(x, y)`.
pub open spec fn zigzag_at(i: nat) -> (u8, u8)
    decreases i,
{
    if i == 0 {
        (0, 0)
    } else {
        zigzag_step(zigzag_at((i - 1) as nat))
    }
}

/// The raster index of position `i` of the zig-zag scan.
pub open spec fn zigzag_raster(i: nat) -> int {
    8 * zigzag_at(i).1 + zigzag_at(i).0
}

/// The index of position `p` in the zig-zag scan.
pub open spec fn zigzag_index(p: (u8, u8)) -> int {
    let d = p.0 + p.1;
    let along = if d % 2 == 0 {
        p.0
    } else {
        p.1
    };
    diagonal_start(d) + if d <= 7 {
        along as int
    } else {
        along - (d - 7)
    }
}

proof fn lemma_zigzag_step(p: (u8, u8))
    requires
        p.0 <= 7,
        p.1 <= 7,
        p != (7u8, 7u8),
    ensures
        zigzag_step(p).0 <= 7,
        zigzag_step(p).1 <= 7,
        zigzag_index(zigzag_step(p)) == zigzag_index(p) + 1,
{
    lemma_diagonals();
}

pub proof fn lemma_zigzag_inside(i: nat)
    requires
        i < 64,
    ensures
        zigzag_at(i).0 <= 7,
        zigzag_at(i).1 <= 7,
        zigzag_index(zigzag_at(i)) == i,
        0 <= zigzag_raster(i) < 64,
    decreases i,
{
    lemma_diagonals();
    if i > 0 {
        lemma_zigzag_inside((i - 1) as nat);
        lemma_zigzag_step(zigzag_at((i - 1) as nat));
    }
}

/// The raster indices in the order of the zig-zag scan.
pub open spec fn zigzag_order() -> Seq<int> {
    seq![
        0int, 1, 8, 16, 9, 2, 3, 10,
        17, 24, 32, 25, 18, 11, 4, 5,
        12, 19, 26, 33, 40, 48, 41, 34,
        27, 20, 13, 6, 7, 14, 21, 28,
        35, 42, 49, 56, 57, 50, 43, 36,
        29, 22, 15, 23, 30, 37, 44, 51,
        58, 59, 52, 45, 38, 31, 39, 46,
        53, 60, 61, 54, 47, 55, 62, 63,
    ]
}

/// The zig-zag scan runs through the raster indices in the order of
/// [`zigzag_order`].
pub proof fn law_zigzag_order(i: nat)
    requires
        i < 64,
    ensures
        zigzag_raster(i) == zigzag_order()[i as int],
{
    assert(zigzag_at(0) == (0u8, 0u8));
    assert(zigzag_at(1) == (1u8, 0u8));
    assert(zigzag_at(2) == (0u8, 1u8));
    assert(zigzag_at(3) == (0u8, 2u8));
    assert(zigzag_at(4) == (1u8, 1u8));
    assert(zigzag_at(5) == (2u8, 0u8));
    assert(zigzag_at(6) == (3u8, 0u8));
    assert(zigzag_at(7) == (2u8, 1u8));
    assert(zigzag_at(8) == (1u8, 2u8));
    assert(zigzag_at(9) == (0u8, 3u8));
    assert(zigzag_at(10) == (0u8, 4u8));
    assert(zigzag_at(11) == (1u8, 3u8));
    assert(zigzag_at(12) == (2u8, 2u8));
    assert(zigzag_at(13) == (3u8, 1u8));
    assert(zigzag_at(14) == (4u8, 0u8));
    assert(zigzag_at(15) == (5u8, 0u8));
    assert(zigzag_at(16) == (4u8, 1u8));
    assert(zigzag_at(17) == (3u8, 2u8));
    assert(zigzag_at(18) == (2u8, 3u8));
    assert(zigzag_at(19) == (1u8, 4u8));
    assert(zigzag_at(20) == (0u8, 5u8));
    assert(zigzag_at(21) == (0u8, 6u8));
    assert(zigzag_at(22) == (1u8, 5u8));
    assert(zigzag_at(23) == (2u8, 4u8));
    assert(zigzag_at(24) == (3u8, 3u8));
    assert(zigzag_at(25) == (4u8, 2u8));
    assert(zigzag_at(26) == (5u8, 1u8));
    assert(zigzag_at(27) == (6u8, 0u8));
    assert(zigzag_at(28) == (7u8, 0u8));
    assert(zigzag_at(29) == (6u8, 1u8));
    assert(zigzag_at(30) == (5u8, 2u8));
    assert(zigzag_at(31) == (4u8, 3u8));
    assert(zigzag_at(32) == (3u8, 4u8));
    assert(zigzag_at(33) == (2u8, 5u8));
    assert(zigzag_at(34) == (1u8, 6u8));
    assert(zigzag_at(35) == (0u8, 7u8));
    assert(zigzag_at(36) == (1u8, 7u8));
    assert(zigzag_at(37) == (2u8, 6u8));
    assert(zigzag_at(38) == (3u8, 5u8));
    assert(zigzag_at(39) == (4u8, 4u8));
    assert(zigzag_at(40) == (5u8, 3u8));
    assert(zigzag_at(41) == (6u8, 2u8));
    assert(zigzag_at(42) == (7u8, 1u8));
    assert(zigzag_at(43) == (7u8, 2u8));
    assert(zigzag_at(44) == (6u8, 3u8));
    assert(zigzag_at(45) == (5u8, 4u8));
    assert(zigzag_at(46) == (4u8, 5u8));
    assert(zigzag_at(47) == (3u8, 6u8));
    assert(zigzag_at(48) == (2u8, 7u8));
    assert(zigzag_at(49) == (3u8, 7u8));
    assert(zigzag_at(50) == (4u8, 6u8));
    assert(zigzag_at(51) == (5u8, 5u8));
    assert(zigzag_at(52) == (6u8, 4u8));
    assert(zigzag_at(53) == (7u8, 3u8));
    assert(zigzag_at(54) == (7u8, 4u8));
    assert(zigzag_at(55) == (6u8, 5u8));
    assert(zigzag_at(56) == (5u8, 6u8));
    assert(zigzag_at(57) == (4u8, 7u8));
    assert(zigzag_at(58) == (5u8, 7u8));
    assert(zigzag_at(59) == (6u8, 6u8));
    assert(zigzag_at(60) == (7u8, 5u8));
    assert(zigzag_at(61) == (7u8, 6u8));
    assert(zigzag_at(62) == (6u8, 7u8));
    assert(zigzag_at(63) == (7u8, 7u8));
}

/// The place of every raster index in the order of the zig-zag scan.
pub open spec fn zigzag_places() -> Seq<int> {
    seq![
        0int, 1, 5, 6, 14, 15, 27, 28,
        2, 4, 7, 13, 16, 26, 29, 42,
        3, 8, 12, 17, 25, 30, 41, 43,
        9, 11, 18, 24, 31, 40, 44, 53,
        10, 19, 23, 32, 39, 45, 52, 54,
        20, 22, 33, 38, 46, 51, 55, 60,
        21, 34, 37, 47, 50, 56, 59, 61,
        35, 36, 48, 49, 57, 58, 62, 63,
    ]
}

/// The zig-zag scan reaches every raster index, at its place.
pub proof fn law_zigzag_places(k: int)
    requires
        0 <= k < 64,
    ensures
        0 <= zigzag_places()[k] < 64,
        zigzag_order()[zigzag_places()[k]] == k,
{
}

/// The zig-zag scan visits every position of the 8×8 block exactly once: two
/// different steps of it visit two different positions.
pub proof fn law_zigzag_visits_once(i: nat, j: nat)
    requires
        i < 64,
        j < 64,
        i != j,
    ensures
        0 <= zigzag_raster(i) < 64,
        zigzag_raster(i) != zigzag_raster(j),
{
    lemma_zigzag_inside(i);
    lemma_zigzag_inside(j);
}

} // verus!
