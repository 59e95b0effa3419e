//! The config-line ledger: appending, re-adding and removing item records.

use vstd::prelude::*;

use crate::bitmask::{bit_is_set, clear_bit, test_bit};
use crate::bytes::{
    all_zero, copy_down, key_at_equals, le_u32, le_u64, lemma_u32_round_trip, read_u32, read_u64,
    spliced, u32_le_bytes, u64_bytes, u64_le_bytes, write_bytes, write_u32, zero_range, zeroed,
};
use crate::error::GumballError;
use crate::layout::{
    claimed_pos, config_line_size, count_pos, indices_pos, line_pos, line_size, machine_size,
    mask_len, settled_pos, GUMBALL_MACHINE_SIZE,
};
use crate::pubkey::{zero_key, Pubkey};
use crate::state::{
    standard_byte, ConfigLine, ConfigLineV2Input, GumballMachine, GumballState, TokenStandard,
};

verus! {

/// Number of config lines written, stored as a `u32` after the header.
pub open spec fn count_of(d: Seq<u8>) -> nat {
    le_u32(d, count_pos())
}

/// The bytes of one stored record.
pub open spec fn record_bytes(
    mint: Seq<u8>,
    seller: Seq<u8>,
    buyer: Seq<u8>,
    standard: u8,
    amount: u64,
    version: u8,
) -> Seq<u8> {
    mint + seller + buyer + seq![standard] + if version >= 2 {
        u64_le_bytes(amount as nat)
    } else {
        Seq::<u8>::empty()
    }
}

pub proof fn lemma_line_pos(v: u8, cap: nat)
    ensures
        forall|i: int|
            0 <= i < cap ==> #[trigger] line_pos(v, i) + line_size(v) <= claimed_pos(cap, v),
        forall|i: int| #[trigger] line_pos(v, i + 1) == line_pos(v, i) + line_size(v),
        forall|a: int, b: int|
            a <= b ==> #[trigger] line_pos(v, a) <= #[trigger] line_pos(v, b),
        forall|a: int, b: int|
            a < b ==> #[trigger] line_pos(v, a) + line_size(v) <= #[trigger] line_pos(v, b),
{
    let ls = line_size(v);
    assert forall|i: int| 0 <= i < cap implies #[trigger] line_pos(v, i) + ls <= claimed_pos(
        cap,
        v,
    ) by {
        assert((i + 1) * ls <= cap * ls) by (nonlinear_arith)
            requires
                i + 1 <= cap,
                ls >= 0,
        ;
        assert((i + 1) * ls == i * ls + ls) by (nonlinear_arith);
    }
    assert forall|i: int| #[trigger] line_pos(v, i + 1) == line_pos(v, i) + ls by {
        assert((i + 1) * ls == i * ls + ls) by (nonlinear_arith);
    }
    assert forall|a: int, b: int| a <= b implies #[trigger] line_pos(v, a) <= #[trigger] line_pos(
        v,
        b,
    ) by {
        assert(a * ls <= b * ls) by (nonlinear_arith)
            requires
                a <= b,
                ls >= 0,
        ;
    }
    assert forall|a: int, b: int| a < b implies #[trigger] line_pos(v, a) + ls
        <= #[trigger] line_pos(v, b) by {
        assert((a + 1) * ls <= b * ls) by (nonlinear_arith)
            requires
                a + 1 <= b,
                ls >= 0,
        ;
        assert((a + 1) * ls == a * ls + ls) by (nonlinear_arith);
    }
}

/// A config line of a slot within the capacity ends before the masks.
pub proof fn lemma_line_below_masks(v: u8, cap: nat, i: int)
    requires
        0 <= i < cap,
    ensures
        0 <= line_pos(v, i),
        line_pos(v, i) + line_size(v) <= claimed_pos(cap, v),
{
    lemma_line_pos(v, cap);
    assert(line_pos(v, 0) <= line_pos(v, i));
}

pub proof fn lemma_line_pos_le(v: u8, a: int, b: int)
    requires
        a <= b,
    ensures
        line_pos(v, a) <= line_pos(v, b),
{
    lemma_line_pos(v, 0);
}

impl GumballMachine {
    /// The data is large enough for the machine's capacity and version, and
    /// the item count is within the capacity.
    pub open spec fn layout_ok(&self, d: Seq<u8>) -> bool {
        &&& self.settings.item_capacity <= u32::MAX
        &&& machine_size(self.cap(), self.version) <= d.len()
        &&& d.len() <= usize::MAX
        &&& count_of(d) <= self.cap()
    }

    pub open spec fn line_start(&self, i: int) -> int {
        line_pos(self.version, i)
    }

    /// Bytes of config line `i`.
    pub open spec fn line_at(&self, d: Seq<u8>, i: int) -> Seq<u8> {
        d.subrange(self.line_start(i), self.line_start(i) + line_size(self.version))
    }

    pub open spec fn mint_at(&self, d: Seq<u8>, i: int) -> Seq<u8> {
        d.subrange(self.line_start(i), self.line_start(i) + 32)
    }

    pub open spec fn seller_at(&self, d: Seq<u8>, i: int) -> Seq<u8> {
        d.subrange(self.line_start(i) + 32, self.line_start(i) + 64)
    }

    pub open spec fn buyer_at(&self, d: Seq<u8>, i: int) -> Seq<u8> {
        d.subrange(self.line_start(i) + 64, self.line_start(i) + 96)
    }

    pub open spec fn standard_at(&self, d: Seq<u8>, i: int) -> u8 {
        d[self.line_start(i) + 96]
    }

    /// Quantity of item `i`; records before schema version 2 hold one.
    pub open spec fn amount_at(&self, d: Seq<u8>, i: int) -> nat {
        if self.version >= 2 {
            le_u64(d, self.line_start(i) + 97)
        } else {
            1
        }
    }

    pub open spec fn claimed(&self, d: Seq<u8>, i: int) -> bool {
        bit_is_set(d, claimed_pos(self.cap(), self.version) as int, i)
    }

    pub open spec fn settled(&self, d: Seq<u8>, i: int) -> bool {
        bit_is_set(d, settled_pos(self.cap(), self.version) as int, i)
    }

    /// Entry `k` of the mint-index permutation.
    pub open spec fn mint_index(&self, d: Seq<u8>, k: int) -> nat {
        le_u32(d, indices_pos(self.cap(), self.version) + 4 * k)
    }

    /// Every byte of every config line at or after the count is zero.
    pub open spec fn dense(&self, d: Seq<u8>) -> bool {
        all_zero(
            d,
            self.line_start(count_of(d) as int),
            claimed_pos(self.cap(), self.version) as int,
        )
    }

    /// No item is settled without being claimed.
    pub open spec fn bits_consistent(&self, d: Seq<u8>) -> bool {
        forall|i: int| 0 <= i < self.cap() ==> #[trigger] self.settled(d, i) ==> self.claimed(d, i)
    }
}

/// Returns the number of config lines written to the data.
pub fn get_config_count(d: &Vec<u8>) -> (r: usize)
    requires
        count_pos() + 4 <= d@.len(),
    ensures
        r == count_of(d@),
{
    read_u32(d, GUMBALL_MACHINE_SIZE) as usize
}

} // verus!

verus! {

/// Bit `j` of a mask lies inside the mask's bytes.
pub proof fn lemma_mask_room(cap: nat, j: int)
    requires
        0 <= j < cap,
    ensures
        j / 8 < mask_len(cap),
{
}

/// Offset of the claimed mask of a machine whose data fits its layout.
pub fn claimed_pos_of(m: &GumballMachine, d: &Vec<u8>) -> (r: usize)
    requires
        m.layout_ok(d@),
    ensures
        r == claimed_pos(m.cap(), m.version),
{
    match m.get_claimed_items_bit_mask_position() {
        Ok(p) => p,
        Err(_) => 0,
    }
}

/// Offset of the settled mask of a machine whose data fits its layout.
pub fn settled_pos_of(m: &GumballMachine, d: &Vec<u8>) -> (r: usize)
    requires
        m.layout_ok(d@),
    ensures
        r == settled_pos(m.cap(), m.version),
{
    match m.get_settled_items_bit_mask_position() {
        Ok(p) => p,
        Err(_) => 0,
    }
}

/// Offset of the mint-index permutation of a machine whose data fits its
/// layout.
pub fn indices_pos_of(m: &GumballMachine, d: &Vec<u8>) -> (r: usize)
    requires
        m.layout_ok(d@),
    ensures
        r == indices_pos(m.cap(), m.version),
{
    match m.get_mint_indices_position() {
        Ok(p) => p,
        Err(_) => 0,
    }
}

/// Builds the bytes of a record with an all-zero buyer.
fn record_vec(mint: &Pubkey, seller: &Pubkey, standard: u8, amount: u64, version: u8) -> (r: Vec<
    u8,
>)
    ensures
        r@ == record_bytes(mint@, seller@, zero_key(), standard, amount, version),
        r@.len() == line_size(version),
{
    let mut r = mint.to_vec();
    let mut s = seller.to_vec();
    r.append(&mut s);
    let mut z = Pubkey::default_key().to_vec();
    r.append(&mut z);
    r.push(standard);
    if version >= 2 {
        let mut a = u64_bytes(amount);
        r.append(&mut a);
    }
    assert(r@ =~= record_bytes(mint@, seller@, zero_key(), standard, amount, version));
    r
}

/// Outcome of `add_item`: the first check that fails, in order.
pub open spec fn add_item_result(
    m: GumballMachine,
    d: Seq<u8>,
    quantity: u16,
    re_add_index: Option<u32>,
) -> Result<(), GumballError> {
    let count = count_of(d);
    let is_re_add = re_add_index is Some;
    let index: int = match re_add_index {
        Some(i) => i as int,
        None => count as int,
    };
    if !m.spec_can_add_items() {
        Err(GumballError::InvalidState)
    } else if is_re_add && m.version < 5 {
        Err(GumballError::InvalidVersion)
    } else if m.state == GumballState::SaleLive && !is_re_add {
        Err(GumballError::MissingItemIndex)
    } else if index + quantity > u32::MAX {
        Err(GumballError::NumericalOverflowError)
    } else if index + quantity > m.cap() {
        Err(GumballError::IndexGreaterThanLength)
    } else if is_re_add && index + quantity > count {
        Err(GumballError::IndexGreaterThanLength)
    } else if is_re_add && exists|j: int| index <= j < index + quantity && !m.claimed(d, j) {
        Err(GumballError::ItemNotClaimed)
    } else if is_re_add && exists|j: int| index <= j < index + quantity && !m.settled(d, j) {
        Err(GumballError::ItemNotSettled)
    } else if is_re_add && (m.items_redeemed < quantity || m.items_settled < quantity
        || count < m.items_redeemed) {
        Err(GumballError::NumericalOverflowError)
    } else {
        Ok(())
    }
}

/// First config-line index written by `add_item`.
pub open spec fn add_item_index(d: Seq<u8>, re_add_index: Option<u32>) -> int {
    match re_add_index {
        Some(i) => i as int,
        None => count_of(d) as int,
    }
}

/// The record that `add_item` stores for each unit of a deposit.
pub open spec fn input_record(
    config_line: &ConfigLineV2Input,
    token_standard: TokenStandard,
    version: u8,
) -> Seq<u8> {
    record_bytes(
        config_line.mint@,
        config_line.seller@,
        zero_key(),
        standard_byte(token_standard),
        config_line.amount,
        version,
    )
}

/// First permutation slot written by `add_item`: the item's own slot for an
/// append, the end of the live prefix for a re-add.
pub open spec fn add_item_slot(m: GumballMachine, d: Seq<u8>, re_add_index: Option<u32>) -> int {
    match re_add_index {
        Some(_) => count_of(d) - m.items_redeemed,
        None => count_of(d) as int,
    }
}

/// Writes `quantity` records for one deposit.
///
/// Without `re_add_index` the records are appended after the current count
/// and each index enters the mint-index permutation at its own slot. With
/// it (schema version 5 and later) the records overwrite the slots
/// `[index, index + quantity)`, each of which must be both claimed and
/// settled; both bits are cleared, the indices are appended to the live
/// prefix of the permutation, and the redeemed and settled counters drop by
/// `quantity`.
#[verifier::rlimit(100)]
pub fn add_item(
    gumball_machine: &mut GumballMachine,
    data: &mut Vec<u8>,
    config_line: &ConfigLineV2Input,
    token_standard: TokenStandard,
    quantity: u16,
    re_add_index: Option<u32>,
) -> (r: Result<(), GumballError>)
    requires
        old(gumball_machine).layout_ok(old(data)@),
    ensures
        r == add_item_result(*old(gumball_machine), old(data)@, quantity, re_add_index),
        r is Err ==> *final(gumball_machine) == *old(gumball_machine) && final(data)@ == old(
            data,
        )@,
        r is Ok ==> final(data)@.len() == old(data)@.len(),
        r is Ok ==> forall|j: int|
            add_item_index(old(data)@, re_add_index) <= j < add_item_index(old(data)@, re_add_index)
                + quantity ==> #[trigger] old(gumball_machine).line_at(final(data)@, j)
                == input_record(config_line, token_standard, old(gumball_machine).version),
        r is Ok ==> forall|t: int|
            0 <= t < quantity ==> #[trigger] old(gumball_machine).mint_index(
                final(data)@,
                add_item_slot(*old(gumball_machine), old(data)@, re_add_index) + t,
            ) == add_item_index(old(data)@, re_add_index) + t,
        r is Ok ==> forall|p: int|
            0 <= p < old(data)@.len() && !(old(gumball_machine).line_start(
                add_item_index(old(data)@, re_add_index),
            ) <= p < old(gumball_machine).line_start(
                add_item_index(old(data)@, re_add_index) + quantity,
            )) && !(indices_pos(old(gumball_machine).cap(), old(gumball_machine).version) + 4
                * add_item_slot(*old(gumball_machine), old(data)@, re_add_index) <= p < indices_pos(
                old(gumball_machine).cap(),
                old(gumball_machine).version,
            ) + 4 * (add_item_slot(*old(gumball_machine), old(data)@, re_add_index) + quantity))
                && !(count_pos() <= p < count_pos() + 4) && !(claimed_pos(
                old(gumball_machine).cap(),
                old(gumball_machine).version,
            ) <= p < indices_pos(old(gumball_machine).cap(), old(gumball_machine).version))
                ==> #[trigger] final(data)@[p] == old(data)@[p],
        r is Ok && old(gumball_machine).dense(old(data)@) ==> old(gumball_machine).dense(
            final(data)@,
        ),
        r is Ok && old(gumball_machine).bits_consistent(old(data)@) ==> old(
            gumball_machine,
        ).bits_consistent(final(data)@),
        r is Ok && re_add_index is None ==> *final(gumball_machine) == *old(gumball_machine),
        r is Ok && re_add_index is None ==> count_of(final(data)@) == count_of(old(data)@)
            + quantity,
        r is Ok && re_add_index is None ==> forall|p: int|
            claimed_pos(old(gumball_machine).cap(), old(gumball_machine).version) <= p
                < indices_pos(old(gumball_machine).cap(), old(gumball_machine).version)
                ==> #[trigger] final(data)@[p] == old(data)@[p],
        r is Ok && re_add_index is Some ==> *final(gumball_machine) == (GumballMachine {
            items_redeemed: (old(gumball_machine).items_redeemed - quantity) as u64,
            items_settled: (old(gumball_machine).items_settled - quantity) as u64,
            ..*old(gumball_machine)
        }),
        r is Ok && re_add_index is Some ==> count_of(final(data)@) == count_of(old(data)@),
        r is Ok && re_add_index is Some ==> forall|j: int|
            add_item_index(old(data)@, re_add_index) <= j < add_item_index(old(data)@, re_add_index)
                + quantity ==> !#[trigger] old(gumball_machine).claimed(final(data)@, j)
                && !old(gumball_machine).settled(final(data)@, j),
        r is Ok && re_add_index is Some ==> forall|j: int|
            0 <= j < old(gumball_machine).cap() && !(add_item_index(old(data)@, re_add_index) <= j
                < add_item_index(old(data)@, re_add_index) + quantity) ==> (
            #[trigger] old(gumball_machine).claimed(final(data)@, j) == old(
                gumball_machine,
            ).claimed(old(data)@, j) && old(gumball_machine).settled(final(data)@, j) == old(
                gumball_machine,
            ).settled(old(data)@, j)),
{
    let ghost m0 = *gumball_machine;
    let ghost d0 = data@;
    let n: usize = data.len();
    let is_re_add = re_add_index.is_some();
    if !gumball_machine.can_add_items() {
        return Err(GumballError::InvalidState);
    }
    if is_re_add && gumball_machine.version < 5 {
        return Err(GumballError::InvalidVersion);
    }
    if gumball_machine.state == GumballState::SaleLive && !is_re_add {
        return Err(GumballError::MissingItemIndex);
    }
    let cap = gumball_machine.settings.item_capacity;
    let version = gumball_machine.version;
    let count = get_config_count(data);
    let index: u32 = match re_add_index {
        Some(i) => i,
        None => count as u32,
    };
    let total = match index.checked_add(quantity as u32) {
        Some(t) => t,
        None => {
            return Err(GumballError::NumericalOverflowError);
        },
    };
    if total as u64 > cap {
        return Err(GumballError::IndexGreaterThanLength);
    }
    if is_re_add && total as usize > count {
        return Err(GumballError::IndexGreaterThanLength);
    }
    let claimed_start = claimed_pos_of(gumball_machine, data);
    let settled_start = settled_pos_of(gumball_machine, data);
    let indices_start = indices_pos_of(gumball_machine, data);
    if is_re_add {
        // every slot must have been both claimed and settled
        if !all_bits_set(data, claimed_start, index, total, cap) {
            proof {
                let j = choose|j: int|
                    index <= j < total && !bit_is_set(d0, claimed_start as int, j);
                assert(!m0.claimed(d0, j));
            }
            return Err(GumballError::ItemNotClaimed);
        }
        if !all_bits_set(data, settled_start, index, total, cap) {
            proof {
                let j = choose|j: int|
                    index <= j < total && !bit_is_set(d0, settled_start as int, j);
                assert(!m0.settled(d0, j));
            }
            return Err(GumballError::ItemNotSettled);
        }
        if gumball_machine.items_redeemed < quantity as u64 || gumball_machine.items_settled
            < quantity as u64 || (count as u64) < gumball_machine.items_redeemed {
            return Err(GumballError::NumericalOverflowError);
        }
    }
    let rec = record_vec(
        &config_line.mint,
        &config_line.seller,
        token_standard.to_byte(),
        config_line.amount,
        version,
    );
    write_records(data, version, cap, index, quantity as u32, &rec);
    let ghost d1 = data@;
    let slot: usize = if is_re_add {
        count - gumball_machine.items_redeemed as usize
    } else {
        index as usize
    };
    write_indices(data, indices_start, slot, index, quantity as u32);
    let ghost d2 = data@;
    proof {
        assert forall|j: int| index <= j < total implies #[trigger] m0.line_at(data@, j) == rec@ by {
            lemma_line_pos(version, cap as nat);
            assert(m0.line_at(data@, j) =~= m0.line_at(d1, j));
        }
    }
    if is_re_add {
        clear_bits(data, claimed_start, index, total, cap);
        let ghost d3 = data@;
        clear_bits(data, settled_start, index, total, cap);
        proof {
            assert forall|j: int| 0 <= j < cap implies #[trigger] m0.claimed(data@, j) == m0.claimed(d3, j) by {
                lemma_mask_room(cap as nat, j);
            }
            assert forall|j: int| 0 <= j < cap implies #[trigger] m0.settled(d3, j) == m0.settled(d2, j) by {
                lemma_mask_room(cap as nat, j);
            }
            lemma_line_pos_le(version, index + quantity, cap as int);
            assert forall|j: int| 0 <= j < cap implies #[trigger] m0.claimed(d2, j) == m0.claimed(d0, j) by {
                lemma_mask_room(cap as nat, j);
            }
            assert forall|j: int| 0 <= j < cap implies #[trigger] m0.settled(d2, j) == m0.settled(d0, j) by {
                lemma_mask_room(cap as nat, j);
            }
            assert forall|j: int| index <= j < total implies #[trigger] m0.line_at(data@, j) == rec@ by {
                lemma_line_below_masks(version, cap as nat, j);
                assert(m0.line_at(data@, j) =~= m0.line_at(d2, j));
            }
        }
        proof {
            assert forall|t: int| 0 <= t < quantity implies #[trigger] m0.mint_index(data@, slot + t)
                == m0.mint_index(d2, slot + t) by {}
        }
        proof {
            lemma_line_pos_le(version, index + quantity, count as int);
            lemma_line_pos_le(version, count as int, cap as int);
            assert forall|k: int|
                m0.line_start(count as int) <= k < claimed_pos(cap as nat, version) implies #[trigger] data@[k]
                == d0[k] by {}
            assert(count_of(data@) == count_of(d0));
            assert(m0.dense(d0) ==> m0.dense(data@));
            assert forall|j: int| 0 <= j < cap implies (#[trigger] m0.settled(data@, j) ==> m0.claimed(data@, j)) || !m0.bits_consistent(d0) by {
                if !(index <= j < total) {
                    assert(m0.settled(data@, j) == m0.settled(d0, j));
                    assert(m0.claimed(data@, j) == m0.claimed(d0, j));
                }
            }
        }
        gumball_machine.items_redeemed = gumball_machine.items_redeemed - quantity as u64;
        gumball_machine.items_settled = gumball_machine.items_settled - quantity as u64;
    } else {
        write_u32(data, GUMBALL_MACHINE_SIZE, (count as u32) + quantity as u32);
        proof {
            assert forall|t: int| 0 <= t < quantity implies #[trigger] m0.mint_index(data@, slot + t)
                == m0.mint_index(d2, slot + t) by {}
            lemma_line_pos_le(version, index + quantity, cap as int);
            assert forall|j: int| index <= j < total implies #[trigger] m0.line_at(data@, j) == rec@ by {
                lemma_line_below_masks(version, cap as nat, j);
                assert(m0.line_at(data@, j) =~= m0.line_at(d2, j));
            }
            assert forall|k: int|
                m0.line_start((count + quantity) as int) <= k < claimed_pos(cap as nat, version) implies #[trigger] data@[k]
                == d0[k] by {}
            assert(count_of(data@) == count + quantity);
            lemma_line_pos_le(version, count as int, count + quantity);
            assert(m0.dense(d0) ==> m0.dense(data@));
            assert forall|j: int| 0 <= j < cap implies #[trigger] m0.settled(data@, j) == m0.settled(d0, j)
                && m0.claimed(data@, j) == m0.claimed(d0, j) by {
                lemma_mask_room(cap as nat, j);
            }
        }
    }
    Ok(())
}

/// True when bits `[lo, hi)` of the mask at `base` are all set.
fn all_bits_set(d: &Vec<u8>, base: usize, lo: u32, hi: u32, cap: u64) -> (r: bool)
    requires
        lo <= hi <= cap,
        base + mask_len(cap as nat) <= d@.len(),
    ensures
        r == forall|j: int| lo <= j < hi ==> #[trigger] bit_is_set(d@, base as int, j),
{
    let mut j: u32 = lo;
    while j < hi
        invariant
            lo <= j <= hi,
            hi <= cap,
            base + mask_len(cap as nat) <= d@.len(),
            forall|k: int| lo <= k < j ==> #[trigger] bit_is_set(d@, base as int, k),
        decreases hi - j,
    {
        proof {
            lemma_mask_room(cap as nat, j as int);
        }
        if !test_bit(d, base, j as usize) {
            return false;
        }
        j = j + 1;
    }
    true
}

/// Writes `rec` into config lines `[index, index + quantity)`.
fn write_records(d: &mut Vec<u8>, version: u8, cap: u64, index: u32, quantity: u32, rec: &Vec<u8>)
    requires
        index + quantity <= cap,
        cap <= u32::MAX,
        rec@.len() == line_size(version),
        claimed_pos(cap as nat, version) <= old(d)@.len(),
    ensures
        final(d)@.len() == old(d)@.len(),
        forall|j: int|
            index <= j < index + quantity ==> #[trigger] final(d)@.subrange(
                line_pos(version, j),
                line_pos(version, j) + line_size(version),
            ) == rec@,
        forall|p: int|
            0 <= p < old(d)@.len() && !(line_pos(version, index as int) <= p < line_pos(
                version,
                index + quantity,
            )) ==> #[trigger] final(d)@[p] == old(d)@[p],
{
    let ghost d0 = d@;
    let n: usize = d.len();
    let ls = config_line_size(version);
    proof {
        lemma_line_pos(version, cap as nat);
    }
    let mut i: u32 = 0;
    while i < quantity
        invariant
            i <= quantity,
            index + quantity <= cap,
            cap <= u32::MAX,
            ls == line_size(version),
            rec@.len() == ls,
            claimed_pos(cap as nat, version) <= n,
            n == d@.len(),
            n == d0.len(),
            forall|j: int|
                index <= j < index + i ==> #[trigger] d@.subrange(
                    line_pos(version, j),
                    line_pos(version, j) + ls,
                ) == rec@,
            forall|p: int|
                0 <= p < n && !(line_pos(version, index as int) <= p < line_pos(version, index + i))
                    ==> #[trigger] d@[p] == d0[p],
            forall|i: int|
                0 <= i < cap ==> #[trigger] line_pos(version, i) + line_size(version)
                    <= claimed_pos(cap as nat, version),
            forall|i: int| #[trigger]
                line_pos(version, i + 1) == line_pos(version, i) + line_size(version),
            forall|a: int, b: int|
                a < b ==> #[trigger] line_pos(version, a) + line_size(version)
                    <= #[trigger] line_pos(version, b),
            forall|a: int, b: int|
                a <= b ==> #[trigger] line_pos(version, a) <= #[trigger] line_pos(version, b),
        decreases quantity - i,
    {
        let j = index + i;
        assert(line_pos(version, j as int) + ls <= claimed_pos(cap as nat, version));
        let pos = GUMBALL_MACHINE_SIZE + 4 + (j as usize) * ls;
        let ghost before = d@;
        write_bytes(d, pos, rec);
        proof {
            assert forall|k: int| index <= k < index + i + 1 implies #[trigger] d@.subrange(
                line_pos(version, k),
                line_pos(version, k) + ls,
            ) == rec@ by {
                if k < j {
                    assert(line_pos(version, k) + ls <= line_pos(version, j as int));
                    assert(d@.subrange(line_pos(version, k), line_pos(version, k) + ls)
                        =~= before.subrange(line_pos(version, k), line_pos(version, k) + ls));
                } else {
                    assert(d@.subrange(line_pos(version, k), line_pos(version, k) + ls) =~= rec@);
                }
            }
            assert(line_pos(version, index + i + 1) == line_pos(version, j as int) + ls);
        }
        i = i + 1;
    }
}

/// Writes `index + t` into permutation slot `slot + t` for every
/// `t < quantity`.
fn write_indices(d: &mut Vec<u8>, indices_start: usize, slot: usize, index: u32, quantity: u32)
    requires
        indices_start + 4 * (slot + quantity) <= old(d)@.len(),
        index + quantity <= u32::MAX,
    ensures
        final(d)@.len() == old(d)@.len(),
        forall|t: int|
            0 <= t < quantity ==> #[trigger] le_u32(final(d)@, indices_start + 4 * (slot + t))
                == index + t,
        forall|p: int|
            0 <= p < old(d)@.len() && !(indices_start + 4 * slot <= p < indices_start + 4 * (slot
                + quantity)) ==> #[trigger] final(d)@[p] == old(d)@[p],
{
    let ghost d0 = d@;
    let n: usize = d.len();
    let mut i: u32 = 0;
    while i < quantity
        invariant
            i <= quantity,
            index + quantity <= u32::MAX,
            indices_start + 4 * (slot + quantity) <= n,
            n == d@.len(),
            n == d0.len(),
            forall|t: int|
                0 <= t < i ==> #[trigger] le_u32(d@, indices_start + 4 * (slot + t)) == index + t,
            forall|p: int|
                0 <= p < n && !(indices_start + 4 * slot <= p < indices_start + 4 * (slot + i))
                    ==> #[trigger] d@[p] == d0[p],
        decreases quantity - i,
    {
        let ghost before = d@;
        write_u32(d, indices_start + 4 * (slot + i as usize), index + i);
        proof {
            assert forall|t: int| 0 <= t < i + 1 implies #[trigger] le_u32(
                d@,
                indices_start + 4 * (slot + t),
            ) == index + t by {
                if t < i {
                    assert(le_u32(d@, indices_start + 4 * (slot + t)) == le_u32(
                        before,
                        indices_start + 4 * (slot + t),
                    ));
                }
            }
        }
        i = i + 1;
    }
}

/// Clears bits `[lo, hi)` of the mask at `base`.
fn clear_bits(d: &mut Vec<u8>, base: usize, lo: u32, hi: u32, cap: u64)
    requires
        lo <= hi <= cap,
        base + mask_len(cap as nat) <= old(d)@.len(),
    ensures
        final(d)@.len() == old(d)@.len(),
        forall|j: int| lo <= j < hi ==> !#[trigger] bit_is_set(final(d)@, base as int, j),
        forall|j: int|
            0 <= j < cap && !(lo <= j < hi) ==> #[trigger] bit_is_set(final(d)@, base as int, j)
                == bit_is_set(old(d)@, base as int, j),
        forall|p: int|
            0 <= p < old(d)@.len() && !(base <= p < base + mask_len(cap as nat))
                ==> #[trigger] final(d)@[p] == old(d)@[p],
{
    let ghost d0 = d@;
    let n: usize = d.len();
    let mut j: u32 = lo;
    while j < hi
        invariant
            lo <= j <= hi,
            hi <= cap,
            base + mask_len(cap as nat) <= n,
            n == d@.len(),
            n == d0.len(),
            forall|k: int| lo <= k < j ==> !#[trigger] bit_is_set(d@, base as int, k),
            forall|k: int|
                0 <= k < cap && !(lo <= k < j) ==> #[trigger] bit_is_set(d@, base as int, k)
                    == bit_is_set(d0, base as int, k),
            forall|p: int|
                0 <= p < n && !(base <= p < base + mask_len(cap as nat)) ==> #[trigger] d@[p]
                    == d0[p],
        decreases hi - j,
    {
        proof {
            lemma_mask_room(cap as nat, j as int);
        }
        let ghost before = d@;
        clear_bit(d, base, j as usize);
        proof {
            assert forall|k: int| lo <= k < j + 1 implies !#[trigger] bit_is_set(
                d@,
                base as int,
                k,
            ) by {
                lemma_mask_room(cap as nat, k);
                if k < j {
                    assert(!bit_is_set(before, base as int, k));
                }
            }
            assert forall|k: int| 0 <= k < cap && !(lo <= k < j + 1) implies #[trigger] bit_is_set(
                d@,
                base as int,
                k,
            ) == bit_is_set(d0, base as int, k) by {
                lemma_mask_room(cap as nat, k);
                assert(bit_is_set(before, base as int, k) == bit_is_set(d0, base as int, k));
            }
        }
        j = j + 1;
    }
}

} // verus!

verus! {

/// The data after swap-removing config line `i`: the last live line moves
/// into slot `i` (unless `i` is the last), the vacated last slot and its
/// permutation entry are zeroed, and the count drops by one.
pub open spec fn swap_removed(m: GumballMachine, d: Seq<u8>, i: int) -> Seq<u8> {
    let last = count_of(d) - 1;
    let ls = line_size(m.version);
    let moved = if i != last {
        spliced(d, m.line_start(i), m.line_at(d, last))
    } else {
        d
    };
    let cleared = zeroed(moved, m.line_start(last), m.line_start(last) + ls);
    let unindexed = spliced(cleared, indices_pos(m.cap(), m.version) + 4 * last, u32_le_bytes(0));
    spliced(unindexed, count_pos(), u32_le_bytes((count_of(d) - 1) as nat))
}

/// Outcome of removing line `i` on behalf of `authority`: the first check
/// that fails, in order.
pub open spec fn remove_check(
    m: GumballMachine,
    d: Seq<u8>,
    authority: Seq<u8>,
    i: int,
    mint: Seq<u8>,
    expected_seller: Seq<u8>,
    amount: u64,
) -> Result<(), GumballError> {
    if i >= count_of(d) {
        Err(GumballError::IndexGreaterThanLength)
    } else if !(authority == m.authority@ || m.seller_at(d, i) == authority) {
        Err(GumballError::InvalidAuthority)
    } else if expected_seller != m.seller_at(d, i) {
        Err(GumballError::InvalidSeller)
    } else if mint != m.mint_at(d, i) {
        Err(GumballError::InvalidMint)
    } else if m.version >= 2 && amount != m.amount_at(d, i) {
        Err(GumballError::InvalidAmount)
    } else {
        Ok(())
    }
}

/// Checks that line `index` may be removed by `authority` and holds the
/// expected mint, seller and (from schema version 2) amount.
pub fn check_removal(
    gumball_machine: &GumballMachine,
    data: &Vec<u8>,
    authority: &Pubkey,
    index: u32,
    mint: &Pubkey,
    expected_seller: &Pubkey,
    amount: u64,
) -> (r: Result<(), GumballError>)
    requires
        gumball_machine.layout_ok(data@),
    ensures
        r == remove_check(
            *gumball_machine,
            data@,
            authority@,
            index as int,
            mint@,
            expected_seller@,
            amount,
        ),
{
    let count = get_config_count(data);
    if index as usize >= count {
        return Err(GumballError::IndexGreaterThanLength);
    }
    let cap = gumball_machine.settings.item_capacity;
    let version = gumball_machine.version;
    proof {
        lemma_line_below_masks(version, cap as nat, index as int);
    }
    let ls = config_line_size(version);
    let pos = GUMBALL_MACHINE_SIZE + 4 + (index as usize) * ls;
    let is_authority = crate::pubkey::cmp_pubkeys(authority, &gumball_machine.authority);
    if !(is_authority || key_at_equals(data, pos + 32, authority)) {
        return Err(GumballError::InvalidAuthority);
    }
    if !key_at_equals(data, pos + 32, expected_seller) {
        return Err(GumballError::InvalidSeller);
    }
    if !key_at_equals(data, pos, mint) {
        return Err(GumballError::InvalidMint);
    }
    if version >= 2 {
        let item_amount = read_u64(data, pos + 97);
        if amount != item_amount {
            return Err(GumballError::InvalidAmount);
        }
    }
    Ok(())
}

/// Swap-removes line `index`, which must be live.
fn swap_remove_line(gumball_machine: &GumballMachine, data: &mut Vec<u8>, index: u32)
    requires
        gumball_machine.layout_ok(old(data)@),
        index < count_of(old(data)@),
    ensures
        final(data)@ == swap_removed(*gumball_machine, old(data)@, index as int),
{
    let ghost d0 = data@;
    let count = get_config_count(data);
    let cap = gumball_machine.settings.item_capacity;
    let version = gumball_machine.version;
    let last = count - 1;
    proof {
        lemma_line_below_masks(version, cap as nat, index as int);
        lemma_line_below_masks(version, cap as nat, last as int);
    }
    let ls = config_line_size(version);
    let pos = GUMBALL_MACHINE_SIZE + 4 + (index as usize) * ls;
    let last_pos = GUMBALL_MACHINE_SIZE + 4 + last * ls;
    if index as usize != last {
        proof {
            lemma_line_pos_le(version, index as int, last as int);
        }
        copy_down(data, last_pos, pos, ls);
        assert(data@.len() == d0.len());
    }
    zero_range(data, last_pos, last_pos + ls);
    let indices_start = indices_pos_of(gumball_machine, data);
    write_u32(data, indices_start + 4 * last, 0);
    write_u32(data, GUMBALL_MACHINE_SIZE, last as u32);
}

/// Removes one item record on behalf of `authority`, who must be the
/// machine authority or the item's seller. Removal is only open before the
/// sale starts: a draw needs the loaded count to stay at the number of
/// items finalized for the sale. The last live record moves into
/// the freed slot so the live prefix stays dense.
pub fn remove_item(
    gumball_machine: &GumballMachine,
    data: &mut Vec<u8>,
    authority: &Pubkey,
    index: u32,
    mint: &Pubkey,
    expected_seller: &Pubkey,
    amount: u64,
) -> (r: Result<(), GumballError>)
    requires
        gumball_machine.layout_ok(old(data)@),
    ensures
        !gumball_machine.spec_is_before_sale() ==> r == Err::<(), GumballError>(
            GumballError::InvalidState,
        ),
        gumball_machine.spec_is_before_sale() ==> r == remove_check(
            *gumball_machine,
            old(data)@,
            authority@,
            index as int,
            mint@,
            expected_seller@,
            amount,
        ),
        r is Err ==> final(data)@ == old(data)@,
        r is Ok ==> final(data)@ == swap_removed(*gumball_machine, old(data)@, index as int),
{
    if !gumball_machine.is_before_sale() {
        return Err(GumballError::InvalidState);
    }
    match check_removal(gumball_machine, data, authority, index, mint, expected_seller, amount) {
        Ok(()) => {},
        Err(e) => {
            return Err(e);
        },
    }
    swap_remove_line(gumball_machine, data, index);
    Ok(())
}

} // verus!

verus! {

pub proof fn lemma_line_next(v: u8, i: int)
    ensures
        line_pos(v, i) + line_size(v) == line_pos(v, i + 1),
{
    let ls = line_size(v);
    assert(i * ls + ls == (i + 1) * ls) by (nonlinear_arith);
}

pub proof fn lemma_line_span(v: u8, a: int, b: int)
    ensures
        line_pos(v, a) + (b - a) * line_size(v) == line_pos(v, b),
{
    let ls = line_size(v);
    assert(a * ls + (b - a) * ls == b * ls) by (nonlinear_arith);
}

/// Outcome of the per-record checks over lines `[i, end]`: the first
/// failure, from `i` upwards.
pub open spec fn span_check(
    m: GumballMachine,
    d: Seq<u8>,
    authority: Seq<u8>,
    mint: Seq<u8>,
    expected_seller: Seq<u8>,
    amount: u64,
    i: int,
    end: int,
) -> Result<(), GumballError>
    decreases end - i + 1,
{
    if i > end {
        Ok(())
    } else {
        match remove_check(m, d, authority, i, mint, expected_seller, amount) {
            Err(e) => Err(e),
            Ok(()) => span_check(m, d, authority, mint, expected_seller, amount, i + 1, end),
        }
    }
}

/// Outcome of `remove_multiple_items_span`.
pub open spec fn span_result(
    m: GumballMachine,
    d: Seq<u8>,
    authority: Seq<u8>,
    mint: Seq<u8>,
    expected_seller: Seq<u8>,
    amount: u64,
    start: int,
    end: int,
) -> Result<(), GumballError> {
    if !m.spec_is_before_sale() {
        Err(GumballError::InvalidState)
    } else if start > end {
        Err(GumballError::InvalidInputLength)
    } else if end >= count_of(d) {
        Err(GumballError::IndexGreaterThanLength)
    } else {
        span_check(m, d, authority, mint, expected_seller, amount, start, end)
    }
}

/// The data after removing lines `[start, end]` in one block: the live
/// lines after the span move down over it, the freed tail of lines and of
/// the permutation is zeroed, and the count drops by the span's length.
pub open spec fn span_removed(m: GumballMachine, d: Seq<u8>, start: int, end: int) -> Seq<u8> {
    let c = count_of(d) as int;
    let k = end - start + 1;
    let ip = indices_pos(m.cap(), m.version) as int;
    let moved = if end + 1 < c {
        spliced(d, m.line_start(start), d.subrange(m.line_start(end + 1), m.line_start(c)))
    } else {
        d
    };
    let cleared = zeroed(moved, m.line_start(c - k), m.line_start(c));
    let unindexed = zeroed(cleared, ip + 4 * (c - k), ip + 4 * c);
    spliced(unindexed, count_pos(), u32_le_bytes((c - k) as nat))
}

/// Removes the lines `[start_index, end_index]` of one seller's fungible
/// deposit in a single pass; every line must match the expected mint,
/// seller and amount.
pub fn remove_multiple_items_span(
    gumball_machine: &GumballMachine,
    data: &mut Vec<u8>,
    authority: &Pubkey,
    mint: &Pubkey,
    expected_seller: &Pubkey,
    amount: u64,
    start_index: u32,
    end_index: u32,
) -> (r: Result<(), GumballError>)
    requires
        gumball_machine.layout_ok(old(data)@),
    ensures
        r == span_result(
            *gumball_machine,
            old(data)@,
            authority@,
            mint@,
            expected_seller@,
            amount,
            start_index as int,
            end_index as int,
        ),
        r is Err ==> final(data)@ == old(data)@,
        r is Ok ==> final(data)@ == span_removed(
            *gumball_machine,
            old(data)@,
            start_index as int,
            end_index as int,
        ),
{
    let ghost d0 = data@;
    let ghost m = *gumball_machine;
    if !gumball_machine.is_before_sale() {
        return Err(GumballError::InvalidState);
    }
    if start_index > end_index {
        return Err(GumballError::InvalidInputLength);
    }
    let count = get_config_count(data);
    if end_index as usize >= count {
        return Err(GumballError::IndexGreaterThanLength);
    }
    let mut i: u32 = start_index;
    while i <= end_index
        invariant
            start_index <= i,
            i <= end_index + 1,
            end_index < count,
            count == count_of(d0),
            data@ == d0,
            gumball_machine.layout_ok(d0),
            span_check(
                m,
                d0,
                authority@,
                mint@,
                expected_seller@,
                amount,
                start_index as int,
                end_index as int,
            ) == span_check(
                m,
                d0,
                authority@,
                mint@,
                expected_seller@,
                amount,
                i as int,
                end_index as int,
            ),
            m == *gumball_machine,
            m.spec_is_before_sale(),
        decreases end_index + 1 - i,
    {
        match check_removal(gumball_machine, data, authority, i, mint, expected_seller, amount) {
            Ok(()) => {},
            Err(e) => {
                assert(span_check(
                    m,
                    d0,
                    authority@,
                    mint@,
                    expected_seller@,
                    amount,
                    i as int,
                    end_index as int,
                ) == Err::<(), GumballError>(e));
                assert(span_result(
                    m,
                    d0,
                    authority@,
                    mint@,
                    expected_seller@,
                    amount,
                    start_index as int,
                    end_index as int,
                ) == Err::<(), GumballError>(e));
                return Err(e);
            },
        }
        i = i + 1;
    }
    let cap = gumball_machine.settings.item_capacity;
    let version = gumball_machine.version;
    let ls = config_line_size(version);
    let k = (end_index - start_index + 1) as usize;
    proof {
        lemma_line_pos_le(version, count as int, cap as int);
        lemma_line_pos_le(version, start_index as int, end_index + 1);
        lemma_line_pos_le(version, end_index + 1, count as int);
        lemma_line_pos_le(version, 0, start_index as int);
        lemma_line_pos_le(version, (count - k) as int, count as int);
        lemma_line_pos_le(version, 0, (count - k) as int);
        lemma_line_span(version, end_index + 1, count as int);
        lemma_line_span(version, (count - k) as int, count as int);
    }
    if (end_index as usize) + 1 < count {
        let src = GUMBALL_MACHINE_SIZE + 4 + (end_index as usize + 1) * ls;
        let dst = GUMBALL_MACHINE_SIZE + 4 + (start_index as usize) * ls;
        let len = (count - end_index as usize - 1) * ls;
        copy_down(data, src, dst, len);
    }
    let zero_start = GUMBALL_MACHINE_SIZE + 4 + (count - k) * ls;
    let zero_end = GUMBALL_MACHINE_SIZE + 4 + count * ls;
    zero_range(data, zero_start, zero_end);
    let indices_start = indices_pos_of(gumball_machine, data);
    zero_range(data, indices_start + 4 * (count - k), indices_start + 4 * count);
    write_u32(data, GUMBALL_MACHINE_SIZE, (count - k) as u32);
    Ok(())
}

} // verus!

verus! {

pub proof fn lemma_swap_removed_count(m: GumballMachine, d: Seq<u8>, i: int)
    requires
        m.layout_ok(d),
        0 <= i < count_of(d),
    ensures
        swap_removed(m, d, i).len() == d.len(),
        count_of(swap_removed(m, d, i)) == count_of(d) - 1,
        m.layout_ok(swap_removed(m, d, i)),
{
    let r = swap_removed(m, d, i);
    lemma_u32_round_trip((count_of(d) - 1) as nat);
    let b = u32_le_bytes((count_of(d) - 1) as nat);
    assert(r[count_pos()] == b[0]);
    assert(r[count_pos() + 1] == b[1]);
    assert(r[count_pos() + 2] == b[2]);
    assert(r[count_pos() + 3] == b[3]);
}

/// True when some index appears twice.
pub open spec fn has_duplicate(indices: Seq<u8>) -> bool {
    exists|a: int, b: int| 0 <= a < b < indices.len() && indices[a] == indices[b]
}

/// True when some index is at or beyond `count`.
pub open spec fn any_beyond(indices: Seq<u8>, count: nat) -> bool {
    exists|a: int| 0 <= a < indices.len() && indices[a] >= count
}

/// Outcome of the per-record checks over `indices[i..]`, in list order.
pub open spec fn list_check(
    m: GumballMachine,
    d: Seq<u8>,
    authority: Seq<u8>,
    mint: Seq<u8>,
    expected_seller: Seq<u8>,
    amount: u64,
    indices: Seq<u8>,
    i: int,
) -> Result<(), GumballError>
    decreases indices.len() - i,
{
    if i >= indices.len() || i < 0 {
        Ok(())
    } else {
        match remove_check(m, d, authority, indices[i] as int, mint, expected_seller, amount) {
            Err(e) => Err(e),
            Ok(()) => list_check(m, d, authority, mint, expected_seller, amount, indices, i + 1),
        }
    }
}

/// Outcome of `remove_multiple_items`.
pub open spec fn multi_result(
    m: GumballMachine,
    d: Seq<u8>,
    authority: Seq<u8>,
    mint: Seq<u8>,
    expected_seller: Seq<u8>,
    amount: u64,
    indices: Seq<u8>,
) -> Result<(), GumballError> {
    if !m.spec_is_before_sale() {
        Err(GumballError::InvalidState)
    } else if indices.len() == 0 {
        Err(GumballError::InvalidInputLength)
    } else if has_duplicate(indices) {
        Err(GumballError::DuplicateIndex)
    } else if any_beyond(indices, count_of(d)) {
        Err(GumballError::IndexGreaterThanLength)
    } else {
        list_check(m, d, authority, mint, expected_seller, amount, indices, 0)
    }
}

/// The data after swap-removing every listed line, largest index first,
/// considering the values `v, v - 1, ..., 0`.
pub open spec fn removed_desc(m: GumballMachine, d: Seq<u8>, indices: Seq<u8>, v: int) -> Seq<u8>
    decreases v + 1,
{
    if v < 0 {
        d
    } else {
        removed_desc(
            m,
            if indices.contains(v as u8) {
                swap_removed(m, d, v)
            } else {
                d
            },
            indices,
            v - 1,
        )
    }
}

fn list_contains(indices: &Vec<u8>, v: u8) -> (r: bool)
    ensures
        r == indices@.contains(v),
{
    let mut i: usize = 0;
    while i < indices.len()
        invariant
            i <= indices@.len(),
            forall|k: int| 0 <= k < i ==> indices@[k] != v,
        decreases indices@.len() - i,
    {
        if indices[i] == v {
            assert(indices@[i as int] == v);
            return true;
        }
        i = i + 1;
    }
    false
}

/// Removes several lines of one seller's deposit. All indices are checked
/// against the current records first; the lines are then swap-removed from
/// the largest index down, so no removal disturbs a line still to be
/// removed and the live prefix stays dense.
pub fn remove_multiple_items(
    gumball_machine: &GumballMachine,
    data: &mut Vec<u8>,
    authority: &Pubkey,
    mint: &Pubkey,
    expected_seller: &Pubkey,
    indices: &Vec<u8>,
    amount: u64,
) -> (r: Result<(), GumballError>)
    requires
        gumball_machine.layout_ok(old(data)@),
    ensures
        r == multi_result(
            *gumball_machine,
            old(data)@,
            authority@,
            mint@,
            expected_seller@,
            amount,
            indices@,
        ),
        r is Err ==> final(data)@ == old(data)@,
        r is Ok ==> final(data)@ == removed_desc(*gumball_machine, old(data)@, indices@, 255),
{
    let ghost d0 = data@;
    let ghost m = *gumball_machine;
    if !gumball_machine.is_before_sale() {
        return Err(GumballError::InvalidState);
    }
    let n = indices.len();
    if n == 0 {
        return Err(GumballError::InvalidInputLength);
    }
    let mut a: usize = 0;
    while a < n
        invariant
            n == indices@.len(),
            a <= n,
            n > 0,
            m == *gumball_machine,
            m.spec_is_before_sale(),
            forall|x: int, y: int| 0 <= x < a && x < y < n ==> indices@[x] != indices@[y],
        decreases n - a,
    {
        let mut b: usize = a + 1;
        while b < n
            invariant
                n == indices@.len(),
                a < n,
                a < b <= n,
                m == *gumball_machine,
                m.spec_is_before_sale(),
                forall|x: int, y: int| 0 <= x < a && x < y < n ==> indices@[x] != indices@[y],
                forall|y: int| a < y < b ==> indices@[a as int] != indices@[y],
            decreases n - b,
        {
            if indices[a] == indices[b] {
                assert(0 <= a < b < indices@.len() && indices@[a as int] == indices@[b as int]);
                return Err(GumballError::DuplicateIndex);
            }
            b = b + 1;
        }
        a = a + 1;
    }
    assert(!has_duplicate(indices@));
    let count = get_config_count(data);
    let mut a: usize = 0;
    while a < n
        invariant
            n == indices@.len(),
            a <= n,
            n > 0,
            !has_duplicate(indices@),
            m == *gumball_machine,
            m.spec_is_before_sale(),
            data@ == d0,
            count == count_of(d0),
            forall|x: int| 0 <= x < a ==> indices@[x] < count,
        decreases n - a,
    {
        if indices[a] as usize >= count {
            assert(0 <= a < indices@.len() && indices@[a as int] >= count_of(d0));
            return Err(GumballError::IndexGreaterThanLength);
        }
        a = a + 1;
    }
    assert(!any_beyond(indices@, count_of(d0)));
    let mut a: usize = 0;
    while a < n
        invariant
            n == indices@.len(),
            a <= n,
            n > 0,
            !has_duplicate(indices@),
            !any_beyond(indices@, count_of(d0)),
            m.spec_is_before_sale(),
            data@ == d0,
            gumball_machine.layout_ok(d0),
            m == *gumball_machine,
            list_check(m, d0, authority@, mint@, expected_seller@, amount, indices@, 0)
                == list_check(
                m,
                d0,
                authority@,
                mint@,
                expected_seller@,
                amount,
                indices@,
                a as int,
            ),
        decreases n - a,
    {
        match check_removal(
            gumball_machine,
            data,
            authority,
            indices[a] as u32,
            mint,
            expected_seller,
            amount,
        ) {
            Ok(()) => {},
            Err(e) => {
                assert(list_check(
                    m,
                    d0,
                    authority@,
                    mint@,
                    expected_seller@,
                    amount,
                    indices@,
                    a as int,
                ) == Err::<(), GumballError>(e));
                return Err(e);
            },
        }
        a = a + 1;
    }
    let mut v: u32 = 256;
    while v > 0
        invariant
            v <= 256,
            gumball_machine.layout_ok(data@),
            m == *gumball_machine,
            data@.len() == d0.len(),
            removed_desc(m, data@, indices@, v - 1) == removed_desc(m, d0, indices@, 255),
            forall|x: int| 0 <= x < n && indices@[x] < v ==> #[trigger] indices@[x] < count_of(
                data@,
            ),
            n == indices@.len(),
        decreases v,
    {
        v = v - 1;
        if list_contains(indices, v as u8) {
            let ghost k = indices@.index_of(v as u8);
            assert(indices@[k] < count_of(data@));
            proof {
                lemma_swap_removed_count(m, data@, v as int);
            }
            swap_remove_line(gumball_machine, data, v);
        }
    }
    Ok(())
}

} // verus!

verus! {

/// Outcome of `assert_config_line`.
pub open spec fn config_line_check(m: GumballMachine, d: Seq<u8>, index: int, line: ConfigLine) -> Result<
    (),
    GumballError,
> {
    if index >= count_of(d) {
        Err(GumballError::IndexGreaterThanLength)
    } else if line.mint@ != m.mint_at(d, index) {
        Err(GumballError::InvalidMint)
    } else if line.seller@ != m.seller_at(d, index) {
        Err(GumballError::InvalidSeller)
    } else if line.buyer@ != m.buyer_at(d, index) {
        Err(GumballError::InvalidBuyer)
    } else if standard_byte(line.token_standard) != m.standard_at(d, index) {
        Err(GumballError::InvalidTokenStandard)
    } else {
        Ok(())
    }
}

/// Checks that line `index` is live and holds exactly `config_line`.
pub fn assert_config_line(
    gumball_machine: &GumballMachine,
    data: &Vec<u8>,
    index: u32,
    config_line: &ConfigLine,
) -> (r: Result<(), GumballError>)
    requires
        gumball_machine.layout_ok(data@),
    ensures
        r == config_line_check(*gumball_machine, data@, index as int, *config_line),
{
    let count = get_config_count(data);
    if index as usize >= count {
        return Err(GumballError::IndexGreaterThanLength);
    }
    let cap = gumball_machine.settings.item_capacity;
    let version = gumball_machine.version;
    proof {
        lemma_line_below_masks(version, cap as nat, index as int);
    }
    let pos = GUMBALL_MACHINE_SIZE + 4 + (index as usize) * config_line_size(version);
    if !key_at_equals(data, pos, &config_line.mint) {
        return Err(GumballError::InvalidMint);
    }
    if !key_at_equals(data, pos + 32, &config_line.seller) {
        return Err(GumballError::InvalidSeller);
    }
    if !key_at_equals(data, pos + 64, &config_line.buyer) {
        return Err(GumballError::InvalidBuyer);
    }
    if config_line.token_standard.to_byte() != data[pos + 96] {
        return Err(GumballError::InvalidTokenStandard);
    }
    Ok(())
}

} // verus!
