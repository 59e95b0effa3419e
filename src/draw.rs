//! The sale state machine and the random draw.

use vstd::prelude::*;

use crate::bytes::{le_u64, read_u32, read_u64, spliced, u32_le_bytes, write_key, write_u32};
use crate::error::GumballError;
use crate::layout::{config_line_size, indices_pos, GUMBALL_MACHINE_SIZE};
use crate::ledger::{count_of, get_config_count, indices_pos_of, lemma_line_below_masks};
use crate::pubkey::Pubkey;
use crate::state::{GumballMachine, GumballState};

verus! {

/// Offset of the eight unpredictable bytes inside the recent-slot-hashes
/// blob.
pub const SLOT_HASH_OFFSET: usize = 12;

/// A timestamp read as an unsigned number, wrapping negative values.
pub open spec fn wrapped_timestamp(t: i64) -> nat {
    if t >= 0 {
        t as nat
    } else {
        (t + 18446744073709551616) as nat
    }
}

/// The draw seed: the eight slot-hash bytes at the fixed offset, read as a
/// little-endian number, minus the timestamp, stopping at zero. This is not
/// a cryptographic randomness source.
pub open spec fn seed_of(slot_hashes: Seq<u8>, unix_timestamp: i64) -> nat {
    let h = le_u64(slot_hashes, SLOT_HASH_OFFSET as int);
    let t = wrapped_timestamp(unix_timestamp);
    if h >= t {
        (h - t) as nat
    } else {
        0
    }
}

/// Derives the draw seed from the host's recent slot hashes and clock.
pub fn draw_seed(slot_hashes: &Vec<u8>, unix_timestamp: i64) -> (r: u64)
    requires
        SLOT_HASH_OFFSET + 8 <= slot_hashes@.len(),
    ensures
        r == seed_of(slot_hashes@, unix_timestamp),
{
    let most_recent = read_u64(slot_hashes, SLOT_HASH_OFFSET);
    let t: u64 = if unix_timestamp >= 0 {
        unix_timestamp as u64
    } else {
        (unix_timestamp as i128 + 18446744073709551616i128) as u64
    };
    most_recent.saturating_sub(t)
}

/// The live prefix of the mint-index permutation holds config-line indices
/// of loaded items.
pub open spec fn indices_live(m: GumballMachine, d: Seq<u8>) -> bool {
    forall|k: int|
        0 <= k < m.finalized_items_count - m.items_redeemed ==> #[trigger] m.mint_index(d, k)
            < count_of(d)
}

/// The data after drawing permutation position `pos` for `buyer`: the last
/// live permutation entry moves into `pos`, and the drawn line records the
/// buyer.
pub open spec fn drawn(m: GumballMachine, d: Seq<u8>, buyer: Seq<u8>, pos: int) -> Seq<u8> {
    let remaining = m.finalized_items_count - m.items_redeemed;
    let ip = indices_pos(m.cap(), m.version) as int;
    let value = m.mint_index(d, pos);
    let last = m.mint_index(d, remaining - 1);
    let swapped = spliced(d, ip + 4 * pos, u32_le_bytes(last));
    spliced(swapped, m.line_start(value as int) + 64, buyer)
}

/// Outcome of a draw: the first check that fails, in order.
pub open spec fn draw_check(m: GumballMachine, d: Seq<u8>) -> Result<(), GumballError> {
    if m.items_redeemed >= m.finalized_items_count {
        Err(GumballError::GumballMachineEmpty)
    } else if m.state != GumballState::SaleLive {
        Err(GumballError::InvalidState)
    } else if count_of(d) != m.finalized_items_count {
        Err(GumballError::NotFullyLoaded)
    } else {
        Ok(())
    }
}

/// Resolves permutation position `index` to its config line, records
/// `buyer` there and swap-removes the entry from the live prefix, whose
/// current length is `finalized_items_count - mint_number`. Returns the
/// config-line index.
pub fn set_config_line_buyer(
    gumball_machine: &GumballMachine,
    data: &mut Vec<u8>,
    buyer: &Pubkey,
    index: usize,
    mint_number: u64,
) -> (r: Result<u32, GumballError>)
    requires
        gumball_machine.layout_ok(old(data)@),
        mint_number == gumball_machine.items_redeemed,
        mint_number < gumball_machine.finalized_items_count,
        index < gumball_machine.finalized_items_count - mint_number,
        indices_live(*gumball_machine, old(data)@),
    ensures
        count_of(old(data)@) != gumball_machine.finalized_items_count ==> r
            == Err::<u32, GumballError>(GumballError::NotFullyLoaded),
        r is Err ==> final(data)@ == old(data)@,
        count_of(old(data)@) == gumball_machine.finalized_items_count ==> r == Ok::<
            u32,
            GumballError,
        >(gumball_machine.mint_index(old(data)@, index as int) as u32),
        r is Ok ==> final(data)@ == drawn(*gumball_machine, old(data)@, buyer@, index as int),
{
    let ghost d0 = data@;
    let config_count = get_config_count(data) as u64;
    if config_count != gumball_machine.finalized_items_count {
        return Err(GumballError::NotFullyLoaded);
    }
    let cap = gumball_machine.settings.item_capacity;
    let version = gumball_machine.version;
    let indices_start = indices_pos_of(gumball_machine, data);
    let remaining = (gumball_machine.finalized_items_count - mint_number) as usize;
    let value_to_use = read_u32(data, indices_start + index * 4);
    assert(gumball_machine.mint_index(d0, index as int) < count_of(d0));
    let last_value = read_u32(data, indices_start + (remaining - 1) * 4);
    write_u32(data, indices_start + index * 4, last_value);
    proof {
        lemma_line_below_masks(version, cap as nat, value_to_use as int);
    }
    let ls = config_line_size(version);
    let buyer_position = GUMBALL_MACHINE_SIZE + 4 + (value_to_use as usize) * ls + 32 + 32;
    write_key(data, buyer_position, buyer);
    Ok(value_to_use)
}

/// Draws one item for `buyer` using `seed`: the permutation position is
/// `seed mod remaining`, where `remaining` is the number of undrawn items.
/// The drawn config-line index is returned; the redeemed counter goes up by
/// one and the sale ends when it reaches the finalized item count.
pub fn process_draw(
    gumball_machine: &mut GumballMachine,
    data: &mut Vec<u8>,
    buyer: &Pubkey,
    seed: u64,
) -> (r: Result<u32, GumballError>)
    requires
        old(gumball_machine).layout_ok(old(data)@),
        indices_live(*old(gumball_machine), old(data)@),
    ensures
        r matches Err(e) ==> draw_check(*old(gumball_machine), old(data)@) == Err::<
            (),
            GumballError,
        >(e),
        draw_check(*old(gumball_machine), old(data)@) is Ok <==> r is Ok,
        r is Err ==> *final(gumball_machine) == *old(gumball_machine) && final(data)@ == old(
            data,
        )@,
        r matches Ok(v) ==> {
            let m = *old(gumball_machine);
            let pos = (seed as int) % ((m.finalized_items_count - m.items_redeemed) as int);
            &&& v == m.mint_index(old(data)@, pos)
            &&& final(data)@ == drawn(m, old(data)@, buyer@, pos)
            &&& *final(gumball_machine) == (GumballMachine {
                items_redeemed: (m.items_redeemed + 1) as u64,
                state: if m.items_redeemed + 1 == m.finalized_items_count {
                    GumballState::SaleEnded
                } else {
                    m.state
                },
                ..m
            })
        },
{
    if gumball_machine.items_redeemed >= gumball_machine.finalized_items_count {
        return Err(GumballError::GumballMachineEmpty);
    }
    if gumball_machine.state != GumballState::SaleLive {
        return Err(GumballError::InvalidState);
    }
    let remaining = gumball_machine.finalized_items_count - gumball_machine.items_redeemed;
    let index = (seed % remaining) as usize;
    let value = match set_config_line_buyer(
        gumball_machine,
        data,
        buyer,
        index,
        gumball_machine.items_redeemed,
    ) {
        Ok(v) => v,
        Err(e) => {
            return Err(e);
        },
    };
    gumball_machine.items_redeemed = gumball_machine.items_redeemed + 1;
    if gumball_machine.items_redeemed == gumball_machine.finalized_items_count {
        gumball_machine.state = GumballState::SaleEnded;
    }
    Ok(value)
}

/// Opens the sale: the machine must not have started yet. The items loaded
/// now are the ones that will be drawn.
pub fn start_sale(gumball_machine: &mut GumballMachine, data: &Vec<u8>) -> (r: Result<
    (),
    GumballError,
>)
    requires
        old(gumball_machine).layout_ok(data@),
    ensures
        !old(gumball_machine).spec_is_before_sale() ==> r == Err::<(), GumballError>(
            GumballError::InvalidState,
        ) && *final(gumball_machine) == *old(gumball_machine),
        old(gumball_machine).spec_is_before_sale() ==> r is Ok && *final(gumball_machine) == (
        GumballMachine {
            state: GumballState::SaleLive,
            finalized_items_count: count_of(data@) as u64,
            ..*old(gumball_machine)
        }),
{
    if !gumball_machine.is_before_sale() {
        return Err(GumballError::InvalidState);
    }
    gumball_machine.finalized_items_count = get_config_count(data) as u64;
    gumball_machine.state = GumballState::SaleLive;
    Ok(())
}

/// Closes a live sale and opens settlement.
pub fn end_sale(gumball_machine: &mut GumballMachine) -> (r: Result<(), GumballError>)
    ensures
        old(gumball_machine).state != GumballState::SaleLive ==> r == Err::<(), GumballError>(
            GumballError::InvalidState,
        ) && *final(gumball_machine) == *old(gumball_machine),
        old(gumball_machine).state == GumballState::SaleLive ==> r is Ok && *final(gumball_machine)
            == (GumballMachine { state: GumballState::SaleEnded, ..*old(gumball_machine) }),
{
    if gumball_machine.state != GumballState::SaleLive {
        return Err(GumballError::InvalidState);
    }
    gumball_machine.state = GumballState::SaleEnded;
    Ok(())
}

/// Adds the price of a draw to the machine's revenue.
pub fn increment_total_revenue(gumball_machine: &mut GumballMachine, revenue: u64) -> (r: Result<
    (),
    GumballError,
>)
    ensures
        old(gumball_machine).total_revenue + revenue > u64::MAX ==> r == Err::<(), GumballError>(
            GumballError::NumericalOverflowError,
        ) && *final(gumball_machine) == *old(gumball_machine),
        old(gumball_machine).total_revenue + revenue <= u64::MAX ==> r is Ok && *final(gumball_machine) == (GumballMachine {
            total_revenue: (old(gumball_machine).total_revenue + revenue) as u64,
            ..*old(gumball_machine)
        }),
{
    match gumball_machine.total_revenue.checked_add(revenue) {
        Some(t) => {
            gumball_machine.total_revenue = t;
            Ok(())
        },
        None => Err(GumballError::NumericalOverflowError),
    }
}

} // verus!
