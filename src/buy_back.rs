//! The buy-back sub-ledger: funds the authority sets aside to repurchase
//! sold items.

use vstd::prelude::*;

use crate::bitmask::{set_bit, test_bit};
use crate::bytes::{
    key_at_equals, le_u64, lemma_u32_unchanged, lemma_u64_unchanged, read_key, read_u64, spliced,
    u64_le_bytes, write_u64,
};
use crate::error::GumballError;
use crate::layout::{
    buy_back_config_pos, buy_back_funds_pos, claimed_pos, config_line_size, BUY_BACK_CONFIG_SIZE,
    GUMBALL_MACHINE_SIZE,
};
use crate::ledger::{
    claimed_pos_of, count_of, get_config_count, lemma_line_below_masks, lemma_mask_room,
};
use crate::pubkey::{cmp_pubkeys, is_native_mint, native_mint_bytes, Pubkey};
use crate::settlement::{bps_result, get_bps_of};
use crate::state::{BuyBackConfig, GumballMachine, GumballState};

verus! {

/// A stored boolean: 0 or 1.
pub open spec fn bool_byte(b: u8) -> Option<bool> {
    if b == 0 {
        Some(false)
    } else if b == 1 {
        Some(true)
    } else {
        None
    }
}

/// Decodes a buy-back config stored at `p`: two booleans, the oracle
/// address, the value percentage, the fee as a little-endian `u16` and the
/// cutoff percentage.
pub open spec fn decode_buy_back(d: Seq<u8>, p: int) -> Option<(bool, bool, Seq<u8>, u8, nat, u8)> {
    match (bool_byte(d[p]), bool_byte(d[p + 1])) {
        (Some(enabled), Some(to_machine)) => Some(
            (
                enabled,
                to_machine,
                d.subrange(p + 2, p + 34),
                d[p + 34],
                (d[p + 35] + 256 * d[p + 36]) as nat,
                d[p + 37],
            ),
        ),
        _ => None,
    }
}

/// The config as its decoded fields.
pub open spec fn config_fields(c: BuyBackConfig) -> (bool, bool, Seq<u8>, u8, nat, u8) {
    (
        c.enabled,
        c.to_gumball_machine,
        c.oracle_signer@,
        c.value_pct,
        c.marketplace_fee_bps as nat,
        c.cutoff_pct,
    )
}

/// The disabled config that machines before schema version 4 have.
pub open spec fn default_buy_back() -> (bool, bool, Seq<u8>, u8, nat, u8) {
    (false, false, Seq::new(32, |i: int| 0u8), 0, 0, 0)
}

/// The stored bytes of a buy-back config.
pub open spec fn buy_back_bytes(c: BuyBackConfig) -> Seq<u8> {
    seq![if c.enabled { 1u8 } else { 0u8 }, if c.to_gumball_machine { 1u8 } else { 0u8 }]
        + c.oracle_signer@ + seq![
        c.value_pct,
        (c.marketplace_fee_bps % 256) as u8,
        (c.marketplace_fee_bps / 256) as u8,
        c.cutoff_pct,
    ]
}

/// Encodes a buy-back config.
pub fn encode_buy_back(c: &BuyBackConfig) -> (r: Vec<u8>)
    ensures
        r@ == buy_back_bytes(*c),
        r@.len() == BUY_BACK_CONFIG_SIZE,
{
    let mut r: Vec<u8> = Vec::new();
    r.push(if c.enabled { 1u8 } else { 0u8 });
    r.push(if c.to_gumball_machine { 1u8 } else { 0u8 });
    let mut k = c.oracle_signer.to_vec();
    r.append(&mut k);
    r.push(c.value_pct);
    r.push((c.marketplace_fee_bps % 256) as u8);
    r.push((c.marketplace_fee_bps / 256) as u8);
    r.push(c.cutoff_pct);
    assert(r@ =~= buy_back_bytes(*c));
    r
}

/// Decoding an encoded config gives it back.
pub proof fn lemma_buy_back_round_trip(d: Seq<u8>, p: int, c: BuyBackConfig)
    requires
        0 <= p,
        d.subrange(p, p + BUY_BACK_CONFIG_SIZE) == buy_back_bytes(c),
        p + BUY_BACK_CONFIG_SIZE <= d.len(),
    ensures
        decode_buy_back(d, p) == Some(config_fields(c)),
{
    let b = buy_back_bytes(c);
    assert(d[p] == b[0]);
    assert(d[p + 1] == b[1]);
    assert(d[p + 34] == b[34]);
    assert(d[p + 35] == b[35]);
    assert(d[p + 36] == b[36]);
    assert(d[p + 37] == b[37]);
    assert(d.subrange(p + 2, p + 34) =~= c.oracle_signer@) by {
        assert forall|i: int| 0 <= i < 32 implies d.subrange(p + 2, p + 34)[i] == c.oracle_signer@[i] by {
            assert(d[p + 2 + i] == b[2 + i]);
        }
    }
}

fn read_bool(d: &Vec<u8>, p: usize) -> (r: Option<bool>)
    requires
        p < d@.len(),
    ensures
        r == bool_byte(d@[p as int]),
{
    let b = d[p];
    if b == 0 {
        Some(false)
    } else if b == 1 {
        Some(true)
    } else {
        None
    }
}

impl GumballMachine {
    /// Reads the buy-back config; machines before schema version 4 have a
    /// disabled one.
    pub fn get_buy_back_config(&self, data: &Vec<u8>) -> (r: Result<BuyBackConfig, GumballError>)
        requires
            self.layout_ok(data@),
        ensures
            self.version < 4 ==> (r matches Ok(c) && config_fields(c) == default_buy_back()),
            self.version >= 4 ==> match decode_buy_back(
                data@,
                buy_back_config_pos(self.cap(), self.version) as int,
            ) {
                Some(f) => (r matches Ok(c) && config_fields(c) == f),
                None => r == Err::<BuyBackConfig, GumballError>(GumballError::InvalidAccountData),
            },
    {
        if self.version < 4 {
            let c = BuyBackConfig {
                enabled: false,
                to_gumball_machine: false,
                oracle_signer: Pubkey::default_key(),
                value_pct: 0,
                marketplace_fee_bps: 0,
                cutoff_pct: 0,
            };
            assert(c.oracle_signer@ =~= Seq::new(32, |i: int| 0u8));
            return Ok(c);
        }
        let p = match self.get_buy_back_config_position() {
            Ok(p) => p,
            Err(_) => 0,
        };
        let enabled = match read_bool(data, p) {
            Some(b) => b,
            None => {
                return Err(GumballError::InvalidAccountData);
            },
        };
        let to_gumball_machine = match read_bool(data, p + 1) {
            Some(b) => b,
            None => {
                return Err(GumballError::InvalidAccountData);
            },
        };
        let oracle_signer = read_key(data, p + 2);
        let value_pct = data[p + 34];
        let marketplace_fee_bps = data[p + 35] as u16 + 256 * (data[p + 36] as u16);
        let cutoff_pct = data[p + 37];
        Ok(
            BuyBackConfig {
                enabled,
                to_gumball_machine,
                oracle_signer,
                value_pct,
                marketplace_fee_bps,
                cutoff_pct,
            },
        )
    }

    /// Funds available for buy-backs; zero before schema version 4.
    pub open spec fn funds_of(&self, d: Seq<u8>) -> nat {
        if self.version >= 4 {
            le_u64(d, buy_back_funds_pos(self.cap(), self.version) as int)
        } else {
            0
        }
    }

    /// Reads the funds available for buy-backs.
    pub fn get_buy_back_funds_available(&self, data: &Vec<u8>) -> (r: u64)
        requires
            self.layout_ok(data@),
        ensures
            r == self.funds_of(data@),
    {
        if self.version < 4 {
            return 0;
        }
        match self.get_buy_back_funds_available_position() {
            Ok(p) => read_u64(data, p),
            Err(_) => 0,
        }
    }
}

/// Writes the buy-back funds counter.
fn set_buy_back_funds(gumball_machine: &GumballMachine, data: &mut Vec<u8>, funds: u64)
    requires
        gumball_machine.layout_ok(old(data)@),
        gumball_machine.version >= 4,
    ensures
        final(data)@ == spliced(
            old(data)@,
            buy_back_funds_pos(gumball_machine.cap(), gumball_machine.version) as int,
            u64_le_bytes(funds as nat),
        ),
        gumball_machine.layout_ok(final(data)@),
        gumball_machine.funds_of(final(data)@) == funds,
{
    let p = match gumball_machine.get_buy_back_funds_available_position() {
        Ok(p) => p,
        Err(_) => 0,
    };
    let ghost d0 = data@;
    write_u64(data, p, funds);
    proof {
        lemma_u32_unchanged(data@, d0, crate::layout::count_pos());
    }
}

/// Outcome of `manage_buy_back_funds`.
pub open spec fn manage_result(m: GumballMachine, d: Seq<u8>, amount: u64, is_withdraw: bool) -> Result<
    u64,
    GumballError,
> {
    let funds = m.funds_of(d);
    let p = buy_back_config_pos(m.cap(), m.version) as int;
    if m.version < 4 {
        Err(GumballError::InvalidVersion)
    } else if decode_buy_back(d, p) is None {
        Err(GumballError::InvalidAccountData)
    } else if is_withdraw {
        if funds < amount {
            Err(GumballError::InsufficientFunds)
        } else {
            Ok((funds - amount) as u64)
        }
    } else if bool_byte(d[p]) != Some(true) {
        Err(GumballError::BuyBackNotEnabled)
    } else if funds + amount > u64::MAX {
        Err(GumballError::NumericalOverflowError)
    } else {
        Ok((funds + amount) as u64)
    }
}

/// Deposits `amount` into, or withdraws it from, the buy-back funds.
/// Deposits need buy-back to be enabled; a withdrawal never takes the
/// funds below zero. Returns the new funds.
pub fn manage_buy_back_funds(
    gumball_machine: &GumballMachine,
    data: &mut Vec<u8>,
    amount: u64,
    is_withdraw: bool,
) -> (r: Result<u64, GumballError>)
    requires
        gumball_machine.layout_ok(old(data)@),
    ensures
        r == manage_result(*gumball_machine, old(data)@, amount, is_withdraw),
        r is Err ==> final(data)@ == old(data)@,
        r matches Ok(funds) ==> final(data)@ == spliced(
            old(data)@,
            buy_back_funds_pos(gumball_machine.cap(), gumball_machine.version) as int,
            u64_le_bytes(funds as nat),
        ) && gumball_machine.funds_of(final(data)@) == funds,
{
    if gumball_machine.version < 4 {
        return Err(GumballError::InvalidVersion);
    }
    let config = match gumball_machine.get_buy_back_config(data) {
        Ok(c) => c,
        Err(e) => {
            return Err(e);
        },
    };
    let funds = gumball_machine.get_buy_back_funds_available(data);
    let new_funds = if is_withdraw {
        if funds < amount {
            return Err(GumballError::InsufficientFunds);
        }
        funds - amount
    } else {
        if !config.enabled {
            return Err(GumballError::BuyBackNotEnabled);
        }
        match funds.checked_add(amount) {
            Some(f) => f,
            None => {
                return Err(GumballError::NumericalOverflowError);
            },
        }
    };
    set_buy_back_funds(gumball_machine, data, new_funds);
    Ok(new_funds)
}

} // verus!

verus! {

/// What a buy-back did.
#[derive(Clone, Copy, Debug)]
pub struct SellOutcome {
    /// Fee paid to the marketplace out of the price.
    pub marketplace_fee: u64,
    /// What the seller receives: the price less the fee.
    pub seller_payout: u64,
    /// Buy-back funds left.
    pub funds_available: u64,
}

/// Outcome of the cutoff rule: refused when the unsold percentage of the
/// loaded items is at or below the cutoff.
pub open spec fn cutoff_result(count: nat, redeemed: nat, cutoff_pct: u8) -> Result<(), GumballError> {
    if cutoff_pct == 0 {
        Ok(())
    } else if redeemed > count || count == 0 || (count - redeemed) * 100 > u64::MAX {
        Err(GumballError::NumericalOverflowError)
    } else if (count - redeemed) * 100 / count as int <= cutoff_pct {
        Err(GumballError::BuyBackCutoffReached)
    } else {
        Ok(())
    }
}

/// Outcome of the checks of `sell_item` on the item itself and on the
/// payment, after the buy-back config passed.
pub open spec fn sell_item_checks(
    m: GumballMachine,
    d: Seq<u8>,
    index: int,
    amount: u64,
    buy_price: u64,
    to_machine: bool,
    fee_bps: nat,
    mint: Seq<u8>,
    seller: Seq<u8>,
    buyer: Seq<u8>,
    machine_key: Seq<u8>,
    payment_mint: Option<Seq<u8>>,
) -> Result<SellOutcome, GumballError> {
    if index >= count_of(d) {
        Err(GumballError::IndexGreaterThanLength)
    } else if mint != m.mint_at(d, index) {
        Err(GumballError::InvalidMint)
    } else if seller != m.seller_at(d, index) {
        Err(GumballError::InvalidSeller)
    } else if amount != m.amount_at(d, index) {
        Err(GumballError::InvalidAmount)
    } else if buyer != (if to_machine {
        machine_key
    } else {
        m.authority@
    }) {
        Err(GumballError::InvalidBuyer)
    } else if m.claimed(d, index) {
        Err(GumballError::ItemAlreadyClaimed)
    } else if to_machine {
        Err(GumballError::NotImplemented)
    } else if (m.settings.payment_mint@ == native_mint_bytes() && payment_mint is Some) || (
    m.settings.payment_mint@ != native_mint_bytes() && payment_mint != Some(
        m.settings.payment_mint@,
    )) {
        Err(GumballError::InvalidPaymentMint)
    } else {
        match bps_result(buy_price as nat, fee_bps) {
            Err(e) => Err(e),
            Ok(fee) => if fee > buy_price {
                Err(GumballError::NumericalOverflowError)
            } else if m.funds_of(d) < buy_price {
                Err(GumballError::InsufficientFunds)
            } else {
                Ok(
                    SellOutcome {
                        marketplace_fee: fee,
                        seller_payout: (buy_price - fee) as u64,
                        funds_available: (m.funds_of(d) - buy_price) as u64,
                    },
                )
            },
        }
    }
}

/// Outcome of `sell_item`: the first check that fails, in order.
pub open spec fn sell_result(
    m: GumballMachine,
    d: Seq<u8>,
    index: int,
    amount: u64,
    buy_price: u64,
    oracle_signer: Seq<u8>,
    mint: Seq<u8>,
    seller: Seq<u8>,
    buyer: Seq<u8>,
    machine_key: Seq<u8>,
    payment_mint: Option<Seq<u8>>,
) -> Result<SellOutcome, GumballError> {
    let p = buy_back_config_pos(m.cap(), m.version) as int;
    if !(m.state == GumballState::SaleLive || m.state == GumballState::SaleEnded) {
        Err(GumballError::InvalidState)
    } else if m.version < 4 {
        Err(GumballError::InvalidVersion)
    } else {
        match decode_buy_back(d, p) {
            None => Err(GumballError::InvalidAccountData),
            Some((enabled, to_machine, oracle, _value_pct, fee_bps, cutoff)) => if !enabled {
                Err(GumballError::BuyBackNotEnabled)
            } else if oracle != oracle_signer {
                Err(GumballError::InvalidOracleSigner)
            } else {
                match cutoff_result(count_of(d), m.items_redeemed as nat, cutoff) {
                    Err(e) => Err(e),
                    Ok(()) => sell_item_checks(
                        m,
                        d,
                        index,
                        amount,
                        buy_price,
                        to_machine,
                        fee_bps,
                        mint,
                        seller,
                        buyer,
                        machine_key,
                        payment_mint,
                    ),
                }
            },
        }
    }
}

fn check_cutoff(count: u64, redeemed: u64, cutoff_pct: u8) -> (r: Result<(), GumballError>)
    ensures
        r == cutoff_result(count as nat, redeemed as nat, cutoff_pct),
{
    if cutoff_pct == 0 {
        return Ok(());
    }
    let remaining = match count.checked_sub(redeemed) {
        Some(x) => x,
        None => {
            return Err(GumballError::NumericalOverflowError);
        },
    };
    let scaled = match remaining.checked_mul(100) {
        Some(x) => x,
        None => {
            return Err(GumballError::NumericalOverflowError);
        },
    };
    let pct = match scaled.checked_div(count) {
        Some(x) => x,
        None => {
            return Err(GumballError::NumericalOverflowError);
        },
    };
    if pct > cutoff_pct as u64 {
        Ok(())
    } else {
        Err(GumballError::BuyBackCutoffReached)
    }
}

/// Repurchases item `index` from its buyer with the buy-back funds: the
/// configured oracle must co-sign, the unsold share must be above the
/// cutoff, the expected mint, seller, amount and buyer must match, and the
/// item must not be claimed yet. The item is marked claimed and the price
/// leaves the funds: the seller receives it less the marketplace fee, which
/// goes to the marketplace. Funds below the price are refused.
#[verifier::rlimit(100)]
pub fn sell_item(
    gumball_machine: &GumballMachine,
    data: &mut Vec<u8>,
    index: u32,
    amount: u64,
    buy_price: u64,
    oracle_signer: &Pubkey,
    mint: &Pubkey,
    seller: &Pubkey,
    buyer: &Pubkey,
    machine_key: &Pubkey,
    payment_mint: Option<Pubkey>,
) -> (r: Result<SellOutcome, GumballError>)
    requires
        gumball_machine.layout_ok(old(data)@),
    ensures
        r == sell_result(
            *gumball_machine,
            old(data)@,
            index as int,
            amount,
            buy_price,
            oracle_signer@,
            mint@,
            seller@,
            buyer@,
            machine_key@,
            match payment_mint {
                Some(k) => Some(k@),
                None => None,
            },
        ),
        r is Err ==> final(data)@ == old(data)@,
        r matches Ok(o) ==> {
            &&& gumball_machine.claimed(final(data)@, index as int)
            &&& gumball_machine.funds_of(final(data)@) == o.funds_available
            &&& count_of(final(data)@) == count_of(old(data)@)
            &&& forall|j: int|
                0 <= j < gumball_machine.cap() && j != index ==> #[trigger] gumball_machine.claimed(
                    final(data)@,
                    j,
                ) == gumball_machine.claimed(old(data)@, j) && gumball_machine.settled(
                    final(data)@,
                    j,
                ) == gumball_machine.settled(old(data)@, j)
            &&& gumball_machine.bits_consistent(old(data)@) ==> gumball_machine.bits_consistent(
                final(data)@,
            )
            &&& gumball_machine.dense(old(data)@) ==> gumball_machine.dense(final(data)@)
        },
{
    let ghost d0 = data@;
    let m = gumball_machine;
    if !(m.state == GumballState::SaleLive || m.state == GumballState::SaleEnded) {
        return Err(GumballError::InvalidState);
    }
    if m.version < 4 {
        return Err(GumballError::InvalidVersion);
    }
    let config = match m.get_buy_back_config(data) {
        Ok(c) => c,
        Err(e) => {
            return Err(e);
        },
    };
    if !config.enabled {
        return Err(GumballError::BuyBackNotEnabled);
    }
    if !cmp_pubkeys(oracle_signer, &config.oracle_signer) {
        return Err(GumballError::InvalidOracleSigner);
    }
    let count = get_config_count(data);
    match check_cutoff(count as u64, m.items_redeemed, config.cutoff_pct) {
        Ok(()) => {},
        Err(e) => {
            return Err(e);
        },
    }
    if index as usize >= count {
        return Err(GumballError::IndexGreaterThanLength);
    }
    let cap = m.settings.item_capacity;
    proof {
        lemma_line_below_masks(m.version, cap as nat, index as int);
        lemma_mask_room(cap as nat, index as int);
    }
    let pos = GUMBALL_MACHINE_SIZE + 4 + (index as usize) * config_line_size(m.version);
    if !key_at_equals(data, pos, mint) {
        return Err(GumballError::InvalidMint);
    }
    if !key_at_equals(data, pos + 32, seller) {
        return Err(GumballError::InvalidSeller);
    }
    let item_amount = if m.version >= 2 {
        read_u64(data, pos + 97)
    } else {
        1
    };
    if amount != item_amount {
        return Err(GumballError::InvalidAmount);
    }
    let expected_buyer = if config.to_gumball_machine {
        *machine_key
    } else {
        m.authority
    };
    if !cmp_pubkeys(buyer, &expected_buyer) {
        return Err(GumballError::InvalidBuyer);
    }
    let claimed_start = claimed_pos_of(m, data);
    if test_bit(data, claimed_start, index as usize) {
        return Err(GumballError::ItemAlreadyClaimed);
    }
    if config.to_gumball_machine {
        return Err(GumballError::NotImplemented);
    }
    let native = is_native_mint(&m.settings.payment_mint);
    let payment_ok = match payment_mint {
        Some(k) => !native && cmp_pubkeys(&k, &m.settings.payment_mint),
        None => native,
    };
    if !payment_ok {
        return Err(GumballError::InvalidPaymentMint);
    }
    let marketplace_fee = match get_bps_of(buy_price, config.marketplace_fee_bps) {
        Ok(f) => f,
        Err(e) => {
            return Err(e);
        },
    };
    let funds = m.get_buy_back_funds_available(data);
    if marketplace_fee > buy_price {
        return Err(GumballError::NumericalOverflowError);
    }
    if funds < buy_price {
        return Err(GumballError::InsufficientFunds);
    }
    let seller_payout = buy_price - marketplace_fee;
    let new_funds = funds - buy_price;
    set_bit(data, claimed_start, index as usize);
    let ghost d1 = data@;
    proof {
        lemma_mask_room(cap as nat, index as int);
        lemma_u32_unchanged(d1, d0, crate::layout::count_pos());
        lemma_u64_unchanged(d1, d0, buy_back_funds_pos(cap as nat, m.version) as int);
    }
    set_buy_back_funds(m, data, new_funds);
    proof {
        assert forall|j: int| 0 <= j < cap && j != index implies #[trigger] m.claimed(data@, j)
            == m.claimed(d0, j) && m.settled(data@, j) == m.settled(d0, j) by {
            lemma_mask_room(cap as nat, j);
            assert(m.claimed(d1, j) == m.claimed(d0, j));
        }
        assert(m.claimed(data@, index as int) == m.claimed(d1, index as int));
        assert forall|q: int| 0 <= q < claimed_pos(cap as nat, m.version) implies #[trigger] data@[q]
            == d0[q] by {
            assert(data@[q] == d1[q]);
        }
        lemma_u32_unchanged(data@, d1, crate::layout::count_pos());
        assert forall|j: int| 0 <= j < cap implies (#[trigger] m.settled(data@, j) ==> m.claimed(
            data@,
            j,
        )) || !m.bits_consistent(d0) by {
            lemma_mask_room(cap as nat, j);
            if j == index {
            } else {
                assert(m.claimed(d1, j) == m.claimed(d0, j));
            }
        }
    }
    Ok(SellOutcome { marketplace_fee, seller_payout, funds_available: new_funds })
}

} // verus!
