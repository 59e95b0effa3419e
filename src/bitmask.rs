//! The claimed and settled bit masks: one bit per item, most significant
//! bit first within each byte.

use vstd::prelude::*;

use crate::error::GumballError;

verus! {

/// Bit number of item `i` inside its byte.
pub open spec fn bit_index(i: int) -> u8 {
    (7 - i % 8) as u8
}

/// Mask that selects item `i`'s bit inside its byte.
pub open spec fn bit_mask(i: int) -> u8 {
    1u8 << bit_index(i)
}

/// True when item `i`'s bit is set in the mask that starts at `base`.
pub open spec fn bit_is_set(d: Seq<u8>, base: int, i: int) -> bool {
    d[base + i / 8] & bit_mask(i) == bit_mask(i)
}

proof fn lemma_bit_ops(b: u8, x: u8, y: u8)
    by (bit_vector)
    requires
        x < 8,
        y < 8,
        x != y,
    ensures
        ((b | (1u8 << x)) & (1u8 << y) == (1u8 << y)) == (b & (1u8 << y) == (1u8 << y)),
        ((b & !(1u8 << x)) & (1u8 << y) == (1u8 << y)) == (b & (1u8 << y) == (1u8 << y)),
{
}

proof fn lemma_bit_own(b: u8, x: u8)
    by (bit_vector)
    requires
        x < 8,
    ensures
        (b | (1u8 << x)) & (1u8 << x) == (1u8 << x),
        (b & !(1u8 << x)) & (1u8 << x) != (1u8 << x),
{
}

/// Byte offset, bit number and mask of bit `position` of the mask at
/// `base_position`.
pub fn get_bit_byte_info(base_position: usize, position: usize) -> (r: Result<
    (usize, usize, u8),
    GumballError,
>)
    ensures
        base_position + position / 8 <= usize::MAX ==> r == Ok::<(usize, usize, u8), GumballError>(
            (
                (base_position + position / 8) as usize,
                bit_index(position as int) as usize,
                bit_mask(position as int),
            ),
        ),
        base_position + position / 8 > usize::MAX ==> r == Err::<(usize, usize, u8), GumballError>(
            GumballError::NumericalOverflowError,
        ),
{
    let byte_position = match base_position.checked_add(position / 8) {
        Some(p) => p,
        None => {
            return Err(GumballError::NumericalOverflowError);
        },
    };
    let bit = 7 - position % 8;
    let mask: u8 = 1u8 << (bit as u8);
    Ok((byte_position, bit, mask))
}

/// Tests bit `i` of the mask at `base`.
pub fn test_bit(d: &Vec<u8>, base: usize, i: usize) -> (r: bool)
    requires
        base + i / 8 < d@.len(),
    ensures
        r == bit_is_set(d@, base as int, i as int),
{
    let n: usize = d.len();
    assert(base + i / 8 < n);
    let byte = d[base + i / 8];
    let mask: u8 = 1u8 << ((7 - i % 8) as u8);
    byte & mask == mask
}

/// Sets bit `i` of the mask at `base`; no other bit changes.
pub fn set_bit(d: &mut Vec<u8>, base: usize, i: usize)
    requires
        base + i / 8 < old(d)@.len(),
    ensures
        final(d)@.len() == old(d)@.len(),
        forall|k: int| 0 <= k < old(d)@.len() && k != base + i / 8 ==> final(d)@[k] == old(d)@[k],
        bit_is_set(final(d)@, base as int, i as int),
        forall|j: int|
            0 <= j && j != i && base + j / 8 < old(d)@.len() ==> (#[trigger] bit_is_set(
                final(d)@,
                base as int,
                j,
            ) == bit_is_set(old(d)@, base as int, j)),
{
    let n: usize = d.len();
    assert(base + i / 8 < n);
    let p = base + i / 8;
    let x: u8 = (7 - i % 8) as u8;
    let byte = d[p];
    d.set(p, byte | (1u8 << x));
    proof {
        lemma_bit_own(byte, x);
        assert forall|j: int|
            0 <= j && j != i && base + j / 8 < old(d)@.len() implies (bit_is_set(
                d@,
                base as int,
                j,
            ) == bit_is_set(old(d)@, base as int, j)) by {
            if j / 8 == i / 8 {
                lemma_bit_ops(byte, x, bit_index(j));
            }
        }
    }
}

/// Clears bit `i` of the mask at `base`; no other bit changes.
pub fn clear_bit(d: &mut Vec<u8>, base: usize, i: usize)
    requires
        base + i / 8 < old(d)@.len(),
    ensures
        final(d)@.len() == old(d)@.len(),
        forall|k: int| 0 <= k < old(d)@.len() && k != base + i / 8 ==> final(d)@[k] == old(d)@[k],
        !bit_is_set(final(d)@, base as int, i as int),
        forall|j: int|
            0 <= j && j != i && base + j / 8 < old(d)@.len() ==> (#[trigger] bit_is_set(
                final(d)@,
                base as int,
                j,
            ) == bit_is_set(old(d)@, base as int, j)),
{
    let n: usize = d.len();
    assert(base + i / 8 < n);
    let p = base + i / 8;
    let x: u8 = (7 - i % 8) as u8;
    let byte = d[p];
    d.set(p, byte & !(1u8 << x));
    proof {
        lemma_bit_own(byte, x);
        assert forall|j: int|
            0 <= j && j != i && base + j / 8 < old(d)@.len() implies (bit_is_set(
                d@,
                base as int,
                j,
            ) == bit_is_set(old(d)@, base as int, j)) by {
            if j / 8 == i / 8 {
                lemma_bit_ops(byte, x, bit_index(j));
            }
        }
    }
}

} // verus!
