//! Bit boards: a `u128` read as a set of cell indices below 128.
use vstd::prelude::*;

verus! {

/// The board that holds cell `i` and nothing else.
pub open spec fn bit(i: u8) -> u128 {
    1u128 << i
}

/// Whether cell `i` is on board `b`.
pub open spec fn holds(b: u128, i: u8) -> bool {
    b & bit(i) != 0
}

/// The cells of a board as a set.
pub open spec fn cells(b: u128) -> Set<nat> {
    Set::new(|i: nat| i < 128 && holds(b, i as u8))
}

/// A one-cell board is not empty and holds exactly its cell; one-cell boards
/// of different cells differ.
pub proof fn lemma_bit_single(i: u8, j: u8)
    by (bit_vector)
    requires
        i < 128,
        j < 128,
    ensures
        holds(bit(i), j) <==> i == j,
        bit(i) == bit(j) <==> i == j,
        bit(i) != 0,
{
}

/// The empty board holds no cell.
pub proof fn lemma_empty(i: u8)
    by (bit_vector)
    requires
        i < 128,
    ensures
        !holds(0u128, i),
{
}

/// Union of boards.
pub proof fn lemma_or(a: u128, b: u128, i: u8)
    by (bit_vector)
    requires
        i < 128,
    ensures
        holds(a | b, i) <==> holds(a, i) || holds(b, i),
{
}

/// Toggling cell `t` flips that cell and leaves the others.
pub proof fn lemma_toggle(a: u128, t: u8, i: u8)
    by (bit_vector)
    requires
        i < 128,
        t < 128,
    ensures
        holds(a ^ bit(t), i) <==> (if i == t {
            !holds(a, i)
        } else {
            holds(a, i)
        }),
{
}

/// The complement of a union holds the cells that are on none of the boards.
pub proof fn lemma_complement(a: u128, b: u128, c: u128, i: u8)
    by (bit_vector)
    requires
        i < 128,
    ensures
        holds(!(a | b | c), i) <==> !holds(a, i) && !holds(b, i) && !holds(c, i),
{
}

/// A one-cell board meets a board exactly when the board holds the cell.
pub proof fn lemma_meets(a: u128, i: u8)
    by (bit_vector)
    requires
        i < 128,
    ensures
        bit(i) & a != 0 <==> holds(a, i),
        bit(i) & a == 0 <==> a & bit(i) == 0,
        0u128 & a == 0,
        a & 0u128 == 0,
{
}

/// Shifting a one-cell board moves its cell, or empties the board when the
/// cell leaves the 128 positions.
pub proof fn lemma_shift(i: u8, n: u8)
    by (bit_vector)
    requires
        i < 128,
        n <= 11,
    ensures
        i + n < 128 ==> bit(i) << n == bit((i + n) as u8),
        i + n >= 128 ==> bit(i) << n == 0,
        i >= n ==> bit(i) >> n == bit((i - n) as u8),
        i < n ==> bit(i) >> n == 0,
{
}

/// Tests one cell of a board.
pub fn test_bit(b: u128, i: u8) -> (r: bool)
    requires
        i < 128,
    ensures
        r == holds(b, i),
{
    b & (1u128 << i) != 0
}

} // verus!
