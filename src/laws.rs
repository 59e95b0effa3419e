//! Properties of the ledger that hold across operations.

use vstd::prelude::*;

use crate::bytes::{
    all_zero, le_u32, lemma_range_in_splice, lemma_range_outside_splice, lemma_range_outside_zeroed, lemma_u32_in_splice,
    lemma_u32_outside_splice, spliced, u32_le_bytes, zeroed,
};
use crate::draw::{drawn, indices_live};
use crate::error::GumballError;
use crate::layout::{claimed_pos, count_pos, indices_pos, line_pos, line_size};
use crate::ledger::{
    count_of, lemma_line_below_masks, lemma_line_next, lemma_line_pos, lemma_line_pos_le,
    lemma_line_span, lemma_swap_removed_count, removed_desc, span_removed, swap_removed,
};
use crate::pubkey::{zero_key, Pubkey};
use crate::settlement::{
    payment_mint_ok, settle_item_check, CreatorBalances, RoyaltyInfo, SellerHistory,
};
use crate::state::GumballMachine;

verus! {

/// Swap-removing a live line keeps the live prefix dense: the vacated last
/// slot is zeroed and every slot after it stays zero.
pub proof fn law_swap_remove_keeps_dense(m: GumballMachine, d: Seq<u8>, i: int)
    requires
        m.layout_ok(d),
        m.dense(d),
        0 <= i < count_of(d),
    ensures
        m.layout_ok(swap_removed(m, d, i)),
        m.dense(swap_removed(m, d, i)),
{
    lemma_swap_removed_count(m, d, i);
    lemma_line_pos(m.version, m.cap());
    let r = swap_removed(m, d, i);
    let c = count_of(d) as int;
    lemma_line_span(m.version, c - 1, c);
    assert(line_pos(m.version, c) <= claimed_pos(m.cap(), m.version)) by {
        assert(line_pos(m.version, c - 1) + line_size(m.version) <= claimed_pos(m.cap(), m.version));
    }
    let last = c - 1;
    let ls = line_size(m.version);
    let moved = if i != last {
        spliced(d, m.line_start(i), m.line_at(d, last))
    } else {
        d
    };
    let cleared = zeroed(moved, m.line_start(last), m.line_start(last) + ls);
    let unindexed = spliced(cleared, indices_pos(m.cap(), m.version) + 4 * last, u32_le_bytes(0));
    assert(r == spliced(unindexed, count_pos(), u32_le_bytes((c - 1) as nat)));
    assert(line_pos(m.version, 0) <= line_pos(m.version, last));
    assert(line_pos(m.version, last + 1) == line_pos(m.version, last) + ls);
    assert(last + 1 == c);
    assert forall|k: int|
        line_pos(m.version, c - 1) <= k < claimed_pos(m.cap(), m.version) implies #[trigger] r[k]
        == 0u8 by {
        assert(r[k] == unindexed[k]);
        assert(unindexed[k] == cleared[k]);
        if k < line_pos(m.version, c) {
            assert(cleared[k] == 0u8);
        } else {
            assert(cleared[k] == moved[k]);
            if i != last {
                assert(line_pos(m.version, i) + ls <= line_pos(m.version, last));
                assert(moved[k] == d[k]);
            }
            assert(d[k] == 0u8);
        }
    }
}

/// Appending one record and then removing it again restores the count and
/// leaves the slot all zero. `d1` is any data that an append of one record
/// to `d` can produce: same length, count one higher.
pub proof fn law_append_then_remove(m: GumballMachine, d: Seq<u8>, d1: Seq<u8>)
    requires
        m.layout_ok(d1),
        d1.len() == d.len(),
        count_of(d1) == count_of(d) + 1,
    ensures
        count_of(swap_removed(m, d1, count_of(d) as int)) == count_of(d),
        all_zero(
            swap_removed(m, d1, count_of(d) as int),
            m.line_start(count_of(d) as int),
            m.line_start(count_of(d) as int) + line_size(m.version),
        ),
{
    let c = count_of(d) as int;
    lemma_swap_removed_count(m, d1, c);
    lemma_line_pos(m.version, m.cap());
    let r = swap_removed(m, d1, c);
    let ls = line_size(m.version);
    let cleared = zeroed(d1, m.line_start(c), m.line_start(c) + ls);
    let unindexed = spliced(cleared, indices_pos(m.cap(), m.version) + 4 * c, u32_le_bytes(0));
    assert(r == spliced(unindexed, count_pos(), u32_le_bytes(c as nat)));
    assert(line_pos(m.version, 0) <= line_pos(m.version, c));
    assert(line_pos(m.version, c) + ls <= claimed_pos(m.cap(), m.version));
    assert forall|k: int| m.line_start(c) <= k < m.line_start(c) + ls implies #[trigger] r[k]
        == 0u8 by {
        assert(r[k] == unindexed[k]);
        assert(unindexed[k] == cleared[k]);
    }
}

/// The live prefix of the mint-index permutation, of length
/// `finalized_items_count - items_redeemed`, holds exactly the config-line
/// indices whose buyer is still the all-zero address, each once.
pub open spec fn permutation_ok(m: GumballMachine, d: Seq<u8>) -> bool {
    let r = m.finalized_items_count - m.items_redeemed;
    &&& forall|k: int|
        0 <= k < r ==> #[trigger] m.mint_index(d, k) < count_of(d) && m.buyer_at(
            d,
            m.mint_index(d, k) as int,
        ) == zero_key()
    &&& forall|a: int, b: int|
        0 <= a < b < r ==> #[trigger] m.mint_index(d, a) != #[trigger] m.mint_index(d, b)
    &&& forall|i: int|
        0 <= i < count_of(d) && #[trigger] m.buyer_at(d, i) == zero_key() ==> exists|k: int|
            0 <= k < r && #[trigger] m.mint_index(d, k) == i
}

/// Before the sale every loaded item sits at its own permutation slot and
/// has no buyer.
pub open spec fn presale_identity(m: GumballMachine, d: Seq<u8>) -> bool {
    forall|k: int|
        0 <= k < count_of(d) ==> #[trigger] m.mint_index(d, k) == k && m.buyer_at(d, k)
            == zero_key()
}

/// Opening the sale of a machine with nothing redeemed turns the pre-sale
/// identity into a valid permutation of the undrawn items.
pub proof fn law_start_sale_permutation(m: GumballMachine, d: Seq<u8>)
    requires
        presale_identity(m, d),
        m.items_redeemed == 0,
        m.finalized_items_count == count_of(d),
    ensures
        permutation_ok(m, d),
{
    assert forall|i: int| 0 <= i < count_of(d) && #[trigger] m.buyer_at(d, i) == zero_key() implies exists|k: int|
        0 <= k < m.finalized_items_count - m.items_redeemed && #[trigger] m.mint_index(d, k) == i by {
        assert(m.mint_index(d, i) == i);
    }
}

/// What a draw does to the permutation: slot `pos` takes the last live
/// entry; no other slot and not the count changes.
pub proof fn lemma_drawn_indices(m: GumballMachine, d: Seq<u8>, buyer: Seq<u8>, pos: int)
    requires
        m.layout_ok(d),
        m.items_redeemed < m.finalized_items_count,
        0 <= pos < m.finalized_items_count - m.items_redeemed <= m.cap(),
        m.mint_index(d, pos) < count_of(d),
        buyer.len() == 32,
    ensures
        count_of(drawn(m, d, buyer, pos)) == count_of(d),
        forall|k: int|
            0 <= k < m.cap() ==> #[trigger] m.mint_index(drawn(m, d, buyer, pos), k) == if k
                == pos {
                m.mint_index(d, m.finalized_items_count - m.items_redeemed - 1)
            } else {
                m.mint_index(d, k)
            },
{
    let r = m.finalized_items_count - m.items_redeemed;
    let ip = indices_pos(m.cap(), m.version) as int;
    let v = m.mint_index(d, pos) as int;
    let last = m.mint_index(d, r - 1);
    let swapped = spliced(d, ip + 4 * pos, u32_le_bytes(last));
    let bp = m.line_start(v) + 64;
    lemma_line_below_masks(m.version, m.cap(), v);
    lemma_line_below_masks(m.version, m.cap(), 0);
    assert(drawn(m, d, buyer, pos) == spliced(swapped, bp, buyer));
    lemma_u32_outside_splice(d, ip + 4 * pos, u32_le_bytes(last), count_pos());
    lemma_u32_outside_splice(swapped, bp, buyer, count_pos());
    assert forall|k: int| 0 <= k < m.cap() implies #[trigger] m.mint_index(
        drawn(m, d, buyer, pos),
        k,
    ) == if k == pos {
        last
    } else {
        m.mint_index(d, k)
    } by {
        lemma_u32_outside_splice(swapped, bp, buyer, ip + 4 * k);
        if k == pos {
            lemma_u32_in_splice(d, ip + 4 * pos, last);
        } else {
            lemma_u32_outside_splice(d, ip + 4 * pos, u32_le_bytes(last), ip + 4 * k);
        }
    }
}

/// What a draw does to the buyers: line `v` (the drawn index) takes the
/// buyer; no other line changes.
pub proof fn lemma_drawn_buyers(m: GumballMachine, d: Seq<u8>, buyer: Seq<u8>, pos: int)
    requires
        m.layout_ok(d),
        m.items_redeemed < m.finalized_items_count,
        0 <= pos < m.finalized_items_count - m.items_redeemed <= m.cap(),
        m.mint_index(d, pos) < count_of(d),
        buyer.len() == 32,
    ensures
        forall|j: int|
            0 <= j < count_of(d) ==> #[trigger] m.buyer_at(drawn(m, d, buyer, pos), j) == if j
                == m.mint_index(d, pos) {
                buyer
            } else {
                m.buyer_at(d, j)
            },
{
    let r = m.finalized_items_count - m.items_redeemed;
    let ip = indices_pos(m.cap(), m.version) as int;
    let v = m.mint_index(d, pos) as int;
    let last = m.mint_index(d, r - 1);
    let swapped = spliced(d, ip + 4 * pos, u32_le_bytes(last));
    let bp = m.line_start(v) + 64;
    let d2 = drawn(m, d, buyer, pos);
    lemma_line_below_masks(m.version, m.cap(), v);
    assert(d2 == spliced(swapped, bp, buyer));
    assert forall|j: int| 0 <= j < count_of(d) implies #[trigger] m.buyer_at(d2, j) == if j == v {
        buyer
    } else {
        m.buyer_at(d, j)
    } by {
        lemma_line_below_masks(m.version, m.cap(), j);
        let a = m.line_start(j) + 64;
        lemma_range_outside_splice(d, ip + 4 * pos, u32_le_bytes(last), a, a + 32);
        if j == v {
            lemma_range_in_splice(swapped, bp, buyer);
        } else {
            if j < v {
                lemma_line_pos_le(m.version, j + 1, v);
                lemma_line_next(m.version, j);
            } else {
                lemma_line_pos_le(m.version, v + 1, j);
                lemma_line_next(m.version, v);
            }
            lemma_range_outside_splice(swapped, bp, buyer, a, a + 32);
        }
    }
}

/// A draw for a buyer other than the all-zero address keeps the
/// permutation valid: the drawn index leaves the live prefix, which shrinks
/// by one, and gets its buyer.
pub proof fn law_draw_keeps_permutation(m: GumballMachine, d: Seq<u8>, buyer: Seq<u8>, pos: int)
    requires
        m.layout_ok(d),
        permutation_ok(m, d),
        m.items_redeemed < m.finalized_items_count,
        count_of(d) == m.finalized_items_count,
        0 <= pos < m.finalized_items_count - m.items_redeemed,
        buyer.len() == 32,
        buyer != zero_key(),
    ensures
        permutation_ok(
            GumballMachine { items_redeemed: (m.items_redeemed + 1) as u64, ..m },
            drawn(m, d, buyer, pos),
        ),
        indices_live(
            GumballMachine { items_redeemed: (m.items_redeemed + 1) as u64, ..m },
            drawn(m, d, buyer, pos),
        ),
{
    let m2 = GumballMachine { items_redeemed: (m.items_redeemed + 1) as u64, ..m };
    let r = m.finalized_items_count - m.items_redeemed;
    let v = m.mint_index(d, pos) as int;
    let d2 = drawn(m, d, buyer, pos);
    lemma_drawn_indices(m, d, buyer, pos);
    lemma_drawn_buyers(m, d, buyer, pos);
    assert forall|k: int| 0 <= k < r - 1 implies #[trigger] m2.mint_index(d2, k) < count_of(d2)
        && m2.buyer_at(d2, m2.mint_index(d2, k) as int) == zero_key() by {
        let x = m2.mint_index(d2, k) as int;
        assert(m2.mint_index(d2, k) == m.mint_index(d2, k));
        assert(m2.buyer_at(d2, x) == m.buyer_at(d2, x));
        if k == pos {
            assert(m.mint_index(d, r - 1) != m.mint_index(d, pos));
            assert(m.mint_index(d, r - 1) < count_of(d));
            assert(m.buyer_at(d, m.mint_index(d, r - 1) as int) == zero_key());
        } else {
            assert(m.mint_index(d, k) != m.mint_index(d, pos));
            assert(m.mint_index(d, k) < count_of(d));
            assert(m.buyer_at(d, m.mint_index(d, k) as int) == zero_key());
        }
    }
    assert forall|a: int, b: int| 0 <= a < b < r - 1 implies #[trigger] m2.mint_index(d2, a)
        != #[trigger] m2.mint_index(d2, b) by {
        assert(m2.mint_index(d2, a) == m.mint_index(d2, a));
        assert(m2.mint_index(d2, b) == m.mint_index(d2, b));
        if a == pos {
            assert(m.mint_index(d, b) != m.mint_index(d, r - 1));
        } else if b == pos {
            assert(m.mint_index(d, a) != m.mint_index(d, r - 1));
        } else {
            assert(m.mint_index(d, a) != m.mint_index(d, b));
        }
    }
    assert forall|i: int| 0 <= i < count_of(d2) && #[trigger] m2.buyer_at(d2, i) == zero_key() implies exists|k: int|
        0 <= k < r - 1 && #[trigger] m2.mint_index(d2, k) == i by {
        assert(m.buyer_at(d2, i) == m2.buyer_at(d2, i));
        assert(i != v);
        assert(m.buyer_at(d, i) == zero_key());
        let k = choose|k: int| 0 <= k < r && #[trigger] m.mint_index(d, k) == i;
        if k == r - 1 {
            assert(pos != r - 1);
            assert(m2.mint_index(d2, pos) == m.mint_index(d2, pos));
            assert(m2.mint_index(d2, pos) == i);
        } else {
            assert(k != pos);
            assert(m2.mint_index(d2, k) == m.mint_index(d2, k));
            assert(m2.mint_index(d2, k) == i);
        }
    }
    assert forall|k: int| 0 <= k < r - 1 implies #[trigger] m2.mint_index(d2, k) < count_of(d2) by {
        assert(m2.mint_index(d2, k) < count_of(d2) && m2.buyer_at(d2, m2.mint_index(d2, k) as int)
            == zero_key());
    }
}

/// A draw writes only inside the live prefix and the permutation, so the
/// lines after the count stay zero.
pub proof fn law_draw_keeps_dense(m: GumballMachine, d: Seq<u8>, buyer: Seq<u8>, pos: int)
    requires
        m.layout_ok(d),
        m.dense(d),
        m.items_redeemed < m.finalized_items_count,
        0 <= pos < m.finalized_items_count - m.items_redeemed <= m.cap(),
        m.mint_index(d, pos) < count_of(d),
        buyer.len() == 32,
    ensures
        m.dense(drawn(m, d, buyer, pos)),
{
    let r = m.finalized_items_count - m.items_redeemed;
    let ip = indices_pos(m.cap(), m.version) as int;
    let v = m.mint_index(d, pos) as int;
    let last = m.mint_index(d, r - 1);
    let swapped = spliced(d, ip + 4 * pos, u32_le_bytes(last));
    let bp = m.line_start(v) + 64;
    let d2 = drawn(m, d, buyer, pos);
    let c = count_of(d) as int;
    lemma_drawn_indices(m, d, buyer, pos);
    lemma_line_below_masks(m.version, m.cap(), v);
    lemma_line_pos_le(m.version, v + 1, c);
    lemma_line_next(m.version, v);
    assert(d2 == spliced(swapped, bp, buyer));
    assert forall|k: int| m.line_start(c) <= k < claimed_pos(m.cap(), m.version) implies #[trigger] d2[k]
        == 0u8 by {
        assert(d2[k] == swapped[k]);
        assert(swapped[k] == d[k]);
    }
}

/// Settling happens once: after an item is settled, settling it again is
/// refused (and, by `settle_item`'s contract, changes nothing), so its
/// proceeds are never paid twice. With the machine's payment mint the
/// refusal is `ItemAlreadySettled`.
pub proof fn law_settle_once(
    m: GumballMachine,
    d: Seq<u8>,
    index: int,
    history: SellerHistory,
    info: RoyaltyInfo,
    balances: CreatorBalances,
    payment_mint: Option<Pubkey>,
)
    requires
        m.settled(d, index),
    ensures
        settle_item_check(m, d, index, history, info, balances, payment_mint) is Err,
        m.spec_can_settle_items() && 0 <= index < count_of(d) && payment_mint_ok(m, payment_mint)
            ==> settle_item_check(m, d, index, history, info, balances, payment_mint) == Err::<
            (),
            GumballError,
        >(GumballError::ItemAlreadySettled),
{
}

/// Removing a span keeps the live prefix dense: the freed tail of lines
/// is zeroed and every line after it stays zero.
pub proof fn law_span_remove_keeps_dense(m: GumballMachine, d: Seq<u8>, start: int, end: int)
    requires
        m.layout_ok(d),
        m.dense(d),
        0 <= start <= end < count_of(d),
    ensures
        m.dense(span_removed(m, d, start, end)),
        count_of(span_removed(m, d, start, end)) == count_of(d) - (end - start + 1),
{
    let c = count_of(d) as int;
    let k = end - start + 1;
    let ip = indices_pos(m.cap(), m.version) as int;
    let ls = line_size(m.version);
    let moved = if end + 1 < c {
        spliced(d, m.line_start(start), d.subrange(m.line_start(end + 1), m.line_start(c)))
    } else {
        d
    };
    let cleared = zeroed(moved, m.line_start(c - k), m.line_start(c));
    let unindexed = zeroed(cleared, ip + 4 * (c - k), ip + 4 * c);
    let r = span_removed(m, d, start, end);
    assert(r == spliced(unindexed, count_pos(), u32_le_bytes((c - k) as nat)));
    lemma_line_below_masks(m.version, m.cap(), c - 1);
    lemma_line_below_masks(m.version, m.cap(), 0);
    lemma_line_next(m.version, c - 1);
    lemma_line_pos_le(m.version, 0, c - k);
    lemma_line_pos_le(m.version, c - k, c);
    lemma_line_pos_le(m.version, start, end + 1);
    lemma_line_pos_le(m.version, end + 1, c);
    lemma_line_span(m.version, end + 1, c);
    lemma_line_span(m.version, start, c - k);
    lemma_u32_in_splice(unindexed, count_pos(), (c - k) as nat);
    assert(count_of(r) == c - k) by {
        assert(le_u32(r, count_pos()) == (c - k) as nat);
    }
    assert forall|q: int| m.line_start(c - k) <= q < claimed_pos(m.cap(), m.version) implies #[trigger] r[q]
        == 0u8 by {
        assert(r[q] == unindexed[q]);
        assert(unindexed[q] == cleared[q]);
        if q >= m.line_start(c) {
            assert(cleared[q] == moved[q]);
            assert(moved[q] == d[q]);
        }
    }
}

/// Removing several listed lines, largest index first, keeps the live
/// prefix dense.
pub proof fn law_multi_remove_keeps_dense(m: GumballMachine, d: Seq<u8>, indices: Seq<u8>, v: int)
    requires
        m.layout_ok(d),
        m.dense(d),
        v <= 255,
        forall|x: int| 0 <= x < indices.len() && indices[x] <= v ==> #[trigger] indices[x] < count_of(d),
    ensures
        m.layout_ok(removed_desc(m, d, indices, v)),
        m.dense(removed_desc(m, d, indices, v)),
    decreases v + 1,
{
    if v >= 0 {
        if indices.contains(v as u8) {
            let x = indices.index_of(v as u8);
            assert(indices[x] < count_of(d));
            law_swap_remove_keeps_dense(m, d, v);
            lemma_swap_removed_count(m, d, v);
            law_multi_remove_keeps_dense(m, swap_removed(m, d, v), indices, v - 1);
        } else {
            assert forall|x: int| 0 <= x < indices.len() && indices[x] <= v - 1 implies #[trigger] indices[x]
                < count_of(d) by {}
            law_multi_remove_keeps_dense(m, d, indices, v - 1);
        }
    }
}

/// Swap-removing line `i` keeps every other live line and moves the last
/// live line into slot `i`: the live lines afterwards are the live lines
/// before less the removed one. With `law_swap_remove_keeps_dense`, the
/// lines from the new count on are zero.
pub proof fn law_swap_remove_keeps_lines(m: GumballMachine, d: Seq<u8>, i: int)
    requires
        m.layout_ok(d),
        0 <= i < count_of(d),
    ensures
        forall|j: int|
            0 <= j < count_of(d) - 1 && j != i ==> #[trigger] m.line_at(swap_removed(m, d, i), j)
                == m.line_at(d, j),
        i < count_of(d) - 1 ==> m.line_at(swap_removed(m, d, i), i) == m.line_at(
            d,
            count_of(d) - 1,
        ),
{
    let c = count_of(d) as int;
    let last = c - 1;
    let ls = line_size(m.version);
    let ip = indices_pos(m.cap(), m.version) as int;
    let r = swap_removed(m, d, i);
    let moved = if i != last {
        spliced(d, m.line_start(i), m.line_at(d, last))
    } else {
        d
    };
    let cleared = zeroed(moved, m.line_start(last), m.line_start(last) + ls);
    let unindexed = spliced(cleared, ip + 4 * last, u32_le_bytes(0));
    assert(r == spliced(unindexed, count_pos(), u32_le_bytes((c - 1) as nat)));
    lemma_line_below_masks(m.version, m.cap(), last);
    lemma_line_below_masks(m.version, m.cap(), 0);
    lemma_line_pos_le(m.version, 0, i);
    lemma_line_pos_le(m.version, i, last);
    lemma_line_next(m.version, last);
    assert forall|j: int| 0 <= j < c - 1 && j != i implies #[trigger] m.line_at(r, j) == m.line_at(
        d,
        j,
    ) by {
        let lo = m.line_start(j);
        lemma_line_pos_le(m.version, 0, j);
        lemma_line_pos_le(m.version, j + 1, last);
        lemma_line_next(m.version, j);
        if j < i {
            lemma_line_pos_le(m.version, j + 1, i);
        } else {
            lemma_line_pos_le(m.version, i + 1, j);
            lemma_line_next(m.version, i);
        }
        lemma_range_outside_splice(unindexed, count_pos(), u32_le_bytes((c - 1) as nat), lo, lo + ls);
        lemma_range_outside_splice(cleared, ip + 4 * last, u32_le_bytes(0), lo, lo + ls);
        lemma_range_outside_zeroed(moved, m.line_start(last), m.line_start(last) + ls, lo, lo + ls);
        if i != last {
            lemma_range_outside_splice(d, m.line_start(i), m.line_at(d, last), lo, lo + ls);
        }
    }
    if i < last {
        let lo = m.line_start(i);
        lemma_line_pos_le(m.version, i + 1, last);
        lemma_line_next(m.version, i);
        lemma_range_outside_splice(unindexed, count_pos(), u32_le_bytes((c - 1) as nat), lo, lo + ls);
        lemma_range_outside_splice(cleared, ip + 4 * last, u32_le_bytes(0), lo, lo + ls);
        lemma_range_outside_zeroed(moved, m.line_start(last), m.line_start(last) + ls, lo, lo + ls);
        lemma_range_in_splice(d, m.line_start(i), m.line_at(d, last));
    }
}

} // verus!
