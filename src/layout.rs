//! Offsets of every region of a machine's account data.
//!
//! The data is `[header][u32 count][config line * capacity][claimed mask]`
//! `[settled mask][u32 mint index * capacity]` followed, by schema version,
//! by `[disable royalties][3 unused][disable primary split]` (v3),
//! `[buy-back config][u64 buy-back funds]` (v4) and
//! `[u64 total proceeds settled]` (v5). Every offset is computed here.

use vstd::prelude::*;

use crate::error::GumballError;
use crate::state::GumballMachine;

verus! {

/// Bytes of the serialized header: discriminator, version, authority, mint
/// authority, optional fee config, three counters, sale state, settings
/// (uri of at most 196 bytes) and the finalized item count.
pub const GUMBALL_MACHINE_SIZE: usize = 8 + 1 + 32 + 32 + 35 + 8 + 8 + 8 + 1 + 278 + 8;

/// Bytes of a config line before schema version 2: mint, seller, buyer and
/// token kind.
pub const CONFIG_LINE_SIZE: usize = 32 + 32 + 32 + 1;

/// Bytes of a config line from schema version 2: a `u64` amount follows.
pub const CONFIG_LINE_V2_SIZE: usize = CONFIG_LINE_SIZE + 8;

/// Bytes of a serialized buy-back config.
pub const BUY_BACK_CONFIG_SIZE: usize = 1 + 1 + 32 + 1 + 2 + 1;

pub open spec fn line_size(version: u8) -> nat {
    if version < 2 {
        CONFIG_LINE_SIZE as nat
    } else {
        CONFIG_LINE_V2_SIZE as nat
    }
}

/// Bytes of one bit mask: one bit per item, rounded up, plus one byte.
pub open spec fn mask_len(cap: nat) -> nat {
    (cap + 7) / 8 + 1
}

/// Offset of the `u32` item count.
pub open spec fn count_pos() -> int {
    GUMBALL_MACHINE_SIZE as int
}

/// Offset of config line `i`.
pub open spec fn line_pos(version: u8, i: int) -> int {
    GUMBALL_MACHINE_SIZE + 4 + i * line_size(version)
}

pub open spec fn claimed_pos(cap: nat, version: u8) -> nat {
    (GUMBALL_MACHINE_SIZE + 4 + cap * line_size(version)) as nat
}

pub open spec fn settled_pos(cap: nat, version: u8) -> nat {
    claimed_pos(cap, version) + mask_len(cap)
}

pub open spec fn indices_pos(cap: nat, version: u8) -> nat {
    settled_pos(cap, version) + mask_len(cap)
}

pub open spec fn disable_royalties_pos(cap: nat, version: u8) -> nat {
    indices_pos(cap, version) + 4 * cap
}

pub open spec fn disable_primary_split_pos(cap: nat, version: u8) -> nat {
    disable_royalties_pos(cap, version) + 4
}

pub open spec fn buy_back_config_pos(cap: nat, version: u8) -> nat {
    disable_primary_split_pos(cap, version) + 1
}

pub open spec fn buy_back_funds_pos(cap: nat, version: u8) -> nat {
    buy_back_config_pos(cap, version) + BUY_BACK_CONFIG_SIZE as nat
}

pub open spec fn total_proceeds_settled_pos(cap: nat, version: u8) -> nat {
    buy_back_funds_pos(cap, version) + 8
}

/// Bytes of the fields that a schema version adds after the mint indices.
pub open spec fn trailing_len(version: u8) -> nat {
    (if version >= 3 { 5nat } else { 0nat }) + (if version >= 4 {
        BUY_BACK_CONFIG_SIZE as nat + 8
    } else {
        0nat
    }) + (if version >= 5 { 8nat } else { 0nat })
}

/// Total bytes of the account data.
pub open spec fn machine_size(cap: nat, version: u8) -> nat {
    disable_royalties_pos(cap, version) + trailing_len(version)
}

/// Turns an exact offset into a `usize`, or the overflow error.
pub open spec fn fit(x: nat) -> Result<usize, GumballError> {
    if x <= usize::MAX {
        Ok(x as usize)
    } else {
        Err(GumballError::NumericalOverflowError)
    }
}

fn to_usize(x: u128) -> (r: Result<usize, GumballError>)
    ensures
        r == fit(x as nat),
{
    if x <= usize::MAX as u128 {
        Ok(x as usize)
    } else {
        Err(GumballError::NumericalOverflowError)
    }
}

/// Bytes of one config line under a schema version.
pub fn config_line_size(version: u8) -> (r: usize)
    ensures
        r == line_size(version),
{
    if version < 2 {
        CONFIG_LINE_SIZE
    } else {
        CONFIG_LINE_V2_SIZE
    }
}

fn claimed_pos_wide(cap: u64, version: u8) -> (r: u128)
    ensures
        r == claimed_pos(cap as nat, version),
        r < 0x1_0000_0000_0000_0000_0000,
{
    let ls = config_line_size(version) as u128;
    let c = cap as u128;
    assert(c * ls <= 105 * 0x1_0000_0000_0000_0000) by (nonlinear_arith)
        requires
            ls <= 105,
            c < 0x1_0000_0000_0000_0000,
    ;
    GUMBALL_MACHINE_SIZE as u128 + 4 + c * ls
}

fn mask_len_wide(cap: u64) -> (r: u128)
    ensures
        r == mask_len(cap as nat),
        r < 0x1_0000_0000_0000_0000,
{
    (cap as u128 + 7) / 8 + 1
}

fn disable_royalties_pos_wide(cap: u64, version: u8) -> (r: u128)
    ensures
        r == disable_royalties_pos(cap as nat, version),
        r < 0x2_0000_0000_0000_0000_0000,
{
    claimed_pos_wide(cap, version) + 2 * mask_len_wide(cap) + 4 * (cap as u128)
}

/// Total bytes of the account data for `item_count` items.
pub fn machine_size_of(item_count: u64, version: u8) -> (r: Result<usize, GumballError>)
    ensures
        r == fit(machine_size(item_count as nat, version)),
{
    let v3: u128 = if version >= 3 { 5 } else { 0 };
    let v4: u128 = if version >= 4 { BUY_BACK_CONFIG_SIZE as u128 + 8 } else { 0 };
    let v5: u128 = if version >= 5 { 8 } else { 0 };
    to_usize(disable_royalties_pos_wide(item_count, version) + v3 + v4 + v5)
}

impl GumballMachine {
    pub open spec fn cap(&self) -> nat {
        self.settings.item_capacity as nat
    }

    /// Gets the size of the account data for `item_count` items.
    pub fn get_size(item_count: u64, version: u8) -> (r: Result<usize, GumballError>)
        ensures
            r == fit(machine_size(item_count as nat, version)),
    {
        machine_size_of(item_count, version)
    }

    pub fn get_config_line_size(&self) -> (r: usize)
        ensures
            r == line_size(self.version),
    {
        config_line_size(self.version)
    }

    pub fn get_claimed_items_bit_mask_position(&self) -> (r: Result<usize, GumballError>)
        ensures
            r == fit(claimed_pos(self.cap(), self.version)),
    {
        to_usize(claimed_pos_wide(self.settings.item_capacity, self.version))
    }

    pub fn get_settled_items_bit_mask_position(&self) -> (r: Result<usize, GumballError>)
        ensures
            r == fit(settled_pos(self.cap(), self.version)),
    {
        let cap = self.settings.item_capacity;
        to_usize(claimed_pos_wide(cap, self.version) + mask_len_wide(cap))
    }

    pub fn get_mint_indices_position(&self) -> (r: Result<usize, GumballError>)
        ensures
            r == fit(indices_pos(self.cap(), self.version)),
    {
        let cap = self.settings.item_capacity;
        to_usize(claimed_pos_wide(cap, self.version) + 2 * mask_len_wide(cap))
    }

    pub fn get_disable_royalties_position(&self) -> (r: Result<usize, GumballError>)
        ensures
            r == fit(disable_royalties_pos(self.cap(), self.version)),
    {
        to_usize(disable_royalties_pos_wide(self.settings.item_capacity, self.version))
    }

    pub fn get_disable_primary_split_position(&self) -> (r: Result<usize, GumballError>)
        ensures
            r == fit(disable_primary_split_pos(self.cap(), self.version)),
    {
        to_usize(disable_royalties_pos_wide(self.settings.item_capacity, self.version) + 4)
    }

    pub fn get_buy_back_config_position(&self) -> (r: Result<usize, GumballError>)
        ensures
            r == fit(buy_back_config_pos(self.cap(), self.version)),
    {
        to_usize(disable_royalties_pos_wide(self.settings.item_capacity, self.version) + 5)
    }

    pub fn get_buy_back_funds_available_position(&self) -> (r: Result<usize, GumballError>)
        ensures
            r == fit(buy_back_funds_pos(self.cap(), self.version)),
    {
        to_usize(
            disable_royalties_pos_wide(self.settings.item_capacity, self.version) + 5
                + BUY_BACK_CONFIG_SIZE as u128,
        )
    }

    pub fn get_total_proceeds_settled_position(&self) -> (r: Result<usize, GumballError>)
        ensures
            r == fit(total_proceeds_settled_pos(self.cap(), self.version)),
    {
        to_usize(
            disable_royalties_pos_wide(self.settings.item_capacity, self.version) + 13
                + BUY_BACK_CONFIG_SIZE as u128,
        )
    }
}

} // verus!
