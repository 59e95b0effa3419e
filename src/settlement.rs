//! Claiming items and settling their proceeds.

use vstd::prelude::*;

use crate::bitmask::{bit_is_set, set_bit, test_bit};
use crate::bytes::{
    key_at_equals, le_u64, lemma_u32_unchanged, lemma_u64_unchanged, read_u64, write_u64,
};
use crate::error::GumballError;
use crate::layout::{
    claimed_pos, config_line_size, disable_primary_split_pos, disable_royalties_pos, mask_len, settled_pos, total_proceeds_settled_pos, GUMBALL_MACHINE_SIZE,
};
use crate::ledger::{
    assert_config_line, claimed_pos_of, config_line_check, count_of, get_config_count,
    lemma_line_below_masks, lemma_mask_room, settled_pos_of,
};
use crate::pubkey::{cmp_pubkeys, is_native_mint, native_mint_bytes, zero_key, Pubkey};
use crate::state::{standard_byte, ConfigLine, GumballMachine, TokenStandard};

verus! {

/// `bps` basis points of `amount`, rounded down.
pub open spec fn bps_of(amount: nat, bps: nat) -> nat {
    amount * bps / 10000
}

/// `bps_of` as a `u64`, or the overflow error when it does not fit.
pub open spec fn bps_result(amount: nat, bps: nat) -> Result<u64, GumballError> {
    if bps_of(amount, bps) <= u64::MAX {
        Ok(bps_of(amount, bps) as u64)
    } else {
        Err(GumballError::NumericalOverflowError)
    }
}

/// Computes `bps` basis points of `amount`, rounded down.
pub fn get_bps_of(amount: u64, bps: u16) -> (r: Result<u64, GumballError>)
    ensures
        r == bps_result(amount as nat, bps as nat),
        bps <= 10000 ==> bps_of(amount as nat, bps as nat) <= amount,
{
    assert(bps <= 10000 ==> amount as nat * bps as nat <= amount as nat * 10000) by (nonlinear_arith);
    assert(amount as nat * bps as nat <= 18446744073709551615 * 65535) by (nonlinear_arith)
        requires
            bps <= 65535,
            amount <= 18446744073709551615,
    ;
    if bps == 0 || amount == 0 {
        assert(amount as nat * bps as nat == 0) by (nonlinear_arith)
            requires
                bps == 0 || amount == 0,
        ;
        return Ok(0);
    }
    let result = (amount as u128) * (bps as u128) / 10000;
    if result > u64::MAX as u128 {
        return Err(GumballError::NumericalOverflowError);
    }
    Ok(result as u64)
}

/// Per-seller bookkeeping of deposited items.
#[derive(Clone, Copy, Debug)]
pub struct SellerHistory {
    /// The machine the items were deposited into.
    pub gumball_machine: Pubkey,
    /// The seller.
    pub seller: Pubkey,
    /// Items of this seller still in the machine and not settled.
    pub item_count: u64,
}

/// A creator entitled to royalties.
#[derive(Clone, Copy, Debug)]
pub struct Creator {
    /// Where royalties go.
    pub address: Pubkey,
    /// Percentage of the royalty.
    pub share: u8,
}

/// Royalty terms of a sold item.
#[derive(Clone, Debug)]
pub struct RoyaltyInfo {
    /// True when the item has never been sold before.
    pub is_primary_sale: bool,
    /// Royalty rate in basis points.
    pub seller_fee_basis_points: u16,
    /// The creators, if the item lists any.
    pub creators: Option<Vec<Creator>>,
}

/// How one item's proceeds are divided.
#[derive(Clone, Debug)]
pub struct ProceedsSplit {
    /// The item's share of the revenue.
    pub total_proceeds: u64,
    /// Fee to the marketplace.
    pub marketplace_fee: u64,
    /// Fee to the machine authority.
    pub curator_fee: u64,
    /// Royalty owed to each creator, in creator order.
    pub creator_fees: Vec<u64>,
    /// Sum of the royalties actually paid.
    pub royalties_paid: u64,
    /// What the seller receives.
    pub seller_proceeds: u64,
}

/// The marketplace fee rate, zero without a fee config.
pub open spec fn marketplace_bps(m: GumballMachine) -> nat {
    match m.marketplace_fee_config {
        Some(f) => f.fee_bps as nat,
        None => 0,
    }
}

/// Fees already taken from the revenue at draw time (schema version 1 on).
pub open spec fn fees_taken(m: GumballMachine) -> nat {
    if m.version > 0 && marketplace_bps(m) > 0 {
        bps_of(m.total_revenue as nat, marketplace_bps(m))
    } else {
        0
    }
}

/// Items among which the remaining revenue is divided.
pub open spec fn unsettled_count(m: GumballMachine, config_count: nat) -> int {
    if m.version >= 5 {
        config_count - m.items_settled
    } else {
        config_count as int
    }
}

/// One item's share of the revenue not yet settled: an equal division of
/// the residual revenue across the unsettled items.
pub open spec fn total_proceeds_result(
    m: GumballMachine,
    total_proceeds_settled: nat,
    config_count: nat,
) -> Result<u64, GumballError> {
    let residual = m.total_revenue - fees_taken(m) - total_proceeds_settled;
    let n = unsettled_count(m, config_count);
    if residual < 0 || n <= 0 {
        Err(GumballError::NumericalOverflowError)
    } else {
        Ok((residual / n) as u64)
    }
}

/// Computes one item's share of the revenue and the marketplace fee rate.
pub fn get_total_proceeds(
    gumball_machine: &GumballMachine,
    total_proceeds_settled: u64,
    config_count: u64,
) -> (r: Result<(u64, u16), GumballError>)
    ensures
        r matches Ok((p, bps)) ==> total_proceeds_result(
            *gumball_machine,
            total_proceeds_settled as nat,
            config_count as nat,
        ) == Ok::<u64, GumballError>(p) && bps == marketplace_bps(*gumball_machine),
        r matches Err(e) ==> total_proceeds_result(
            *gumball_machine,
            total_proceeds_settled as nat,
            config_count as nat,
        ) == Err::<u64, GumballError>(e),
{
    let marketplace_fee_bps: u16 = match gumball_machine.marketplace_fee_config {
        Some(fee_config) => fee_config.fee_bps,
        None => 0,
    };
    let fees_taken: u64 = if gumball_machine.version > 0 && marketplace_fee_bps > 0 {
        match get_bps_of(gumball_machine.total_revenue, marketplace_fee_bps) {
            Ok(f) => f,
            Err(e) => {
                return Err(e);
            },
        }
    } else {
        0
    };
    let count: u64 = if gumball_machine.version >= 5 {
        match config_count.checked_sub(gumball_machine.items_settled) {
            Some(c) => c,
            None => {
                return Err(GumballError::NumericalOverflowError);
            },
        }
    } else {
        config_count
    };
    let residual = match gumball_machine.total_revenue.checked_sub(fees_taken) {
        Some(x) => x,
        None => {
            return Err(GumballError::NumericalOverflowError);
        },
    };
    let residual = match residual.checked_sub(total_proceeds_settled) {
        Some(x) => x,
        None => {
            return Err(GumballError::NumericalOverflowError);
        },
    };
    match residual.checked_div(count) {
        Some(p) => Ok((p, marketplace_fee_bps)),
        None => Err(GumballError::NumericalOverflowError),
    }
}

} // verus!

verus! {

/// A creator's royalty: its share (a percentage) of the total royalty.
pub open spec fn creator_fee(share: nat, total_royalty: nat) -> nat {
    share * total_royalty / 100
}

/// Balances the host reports for the royalty recipients.
#[derive(Clone, Debug)]
pub struct CreatorBalances {
    /// Current lamports of each creator's account, in creator order.
    pub lamports: Vec<u64>,
    /// Least balance a native account must end with (the rent minimum).
    pub minimum_balance: u64,
    /// True when payment is in the chain's native currency.
    pub is_native: bool,
}

/// A creator is paid a non-zero fee, except in the native currency when
/// the payment would leave its account below the minimum balance.
pub open spec fn creator_paid(fee: nat, lamports: nat, minimum_balance: nat, is_native: bool) -> bool {
    fee > 0 && !(is_native && fee + lamports < minimum_balance)
}

/// What creator `i` receives out of `total_royalty`.
pub open spec fn creator_payment(
    shares: Seq<u8>,
    balances: CreatorBalances,
    total_royalty: nat,
    i: int,
) -> nat {
    let fee = creator_fee(shares[i] as nat, total_royalty);
    if creator_paid(fee, balances.lamports@[i] as nat, balances.minimum_balance as nat, balances.is_native) {
        fee
    } else {
        0
    }
}

/// Sum of the royalties paid to the first `n` creators.
pub open spec fn royalties_paid(
    shares: Seq<u8>,
    balances: CreatorBalances,
    total_royalty: nat,
    n: int,
) -> nat
    decreases n,
{
    if n <= 0 {
        0
    } else {
        royalties_paid(shares, balances, total_royalty, n - 1) + creator_payment(
            shares,
            balances,
            total_royalty,
            n - 1,
        )
    }
}

/// The shares of a creator list.
pub open spec fn shares_of(creators: Seq<Creator>) -> Seq<u8> {
    creators.map_values(|c: Creator| c.share)
}

/// Splits `total_royalty` among `creators` by share. A creator whose fee is
/// zero, or whose native-currency account would stay below the minimum
/// balance, is skipped. Returns what each creator receives and the total.
pub fn pay_creator_royalties(
    creators: &Vec<Creator>,
    balances: &CreatorBalances,
    total_royalty: u64,
) -> (r: Result<(Vec<u64>, u64), GumballError>)
    requires
        balances.lamports@.len() == creators@.len(),
    ensures
        r matches Ok((fees, paid)) ==> {
            &&& fees@.len() == creators@.len()
            &&& forall|i: int|
                0 <= i < fees@.len() ==> #[trigger] fees@[i] == creator_payment(
                    shares_of(creators@),
                    *balances,
                    total_royalty as nat,
                    i,
                )
            &&& paid == royalties_paid(
                shares_of(creators@),
                *balances,
                total_royalty as nat,
                creators@.len() as int,
            )
            &&& forall|i: int|
                0 <= i < creators@.len() ==> #[trigger] creator_fee(
                    creators@[i].share as nat,
                    total_royalty as nat,
                ) <= u64::MAX
        },
        r is Err ==> royalties_paid(
            shares_of(creators@),
            *balances,
            total_royalty as nat,
            creators@.len() as int,
        ) > u64::MAX || exists|i: int|
            0 <= i < creators@.len() && creator_fee(creators@[i].share as nat, total_royalty as nat)
                > u64::MAX,
{
    let mut fees: Vec<u64> = Vec::new();
    let mut paid: u64 = 0;
    let mut i: usize = 0;
    while i < creators.len()
        invariant
            i <= creators@.len(),
            balances.lamports@.len() == creators@.len(),
            fees@.len() == i,
            forall|k: int|
                0 <= k < i ==> #[trigger] fees@[k] == creator_payment(
                    shares_of(creators@),
                    *balances,
                    total_royalty as nat,
                    k,
                ),
            paid == royalties_paid(shares_of(creators@), *balances, total_royalty as nat, i as int),
            forall|k: int|
                0 <= k < i ==> #[trigger] creator_fee(
                    creators@[k].share as nat,
                    total_royalty as nat,
                ) <= u64::MAX,
        decreases creators@.len() - i,
    {
        let share = creators[i].share;
        assert(share as nat * total_royalty as nat <= 255 * 18446744073709551615) by (
        nonlinear_arith)
            requires
                share <= 255,
                total_royalty <= 18446744073709551615,
        ;
        let fee_wide = (share as u128) * (total_royalty as u128) / 100;
        if fee_wide > u64::MAX as u128 {
            assert(creator_fee(creators@[i as int].share as nat, total_royalty as nat) > u64::MAX);
            return Err(GumballError::NumericalOverflowError);
        }
        let fee = fee_wide as u64;
        assert(shares_of(creators@)[i as int] == share);
        let below_minimum = balances.is_native && (fee as u128) + (balances.lamports[i] as u128)
            < balances.minimum_balance as u128;
        let payment: u64 = if fee > 0 && !below_minimum {
            fee
        } else {
            0
        };
        paid = match paid.checked_add(payment) {
            Some(p) => p,
            None => {
                proof {
                    lemma_royalties_monotonic(
                        shares_of(creators@),
                        *balances,
                        total_royalty as nat,
                        i + 1,
                        creators@.len() as int,
                    );
                }
                return Err(GumballError::NumericalOverflowError);
            },
        };
        fees.push(payment);
        i = i + 1;
    }
    Ok((fees, paid))
}

pub proof fn lemma_royalties_monotonic(
    shares: Seq<u8>,
    balances: CreatorBalances,
    total_royalty: nat,
    a: int,
    b: int,
)
    requires
        a <= b,
    ensures
        royalties_paid(shares, balances, total_royalty, a) <= royalties_paid(
            shares,
            balances,
            total_royalty,
            b,
        ),
    decreases b - a,
{
    if a < b {
        lemma_royalties_monotonic(shares, balances, total_royalty, a, b - 1);
    }
}

} // verus!

verus! {

/// Marketplace fee taken when proceeds are settled: only schema version 0
/// takes it here; later versions take it at draw time.
pub open spec fn settle_marketplace_fee(m: GumballMachine, total: nat, bps: nat) -> nat {
    if m.version > 0 {
        0
    } else {
        bps_of(total, bps)
    }
}

/// The royalty owed on `price_less_fees`: all of it on a primary sale
/// (unless primary split is disabled), else the royalty rate of it.
pub open spec fn total_royalty_of(
    price_less_fees: nat,
    info: RoyaltyInfo,
    disable_primary_split: bool,
) -> nat {
    if info.is_primary_sale && !disable_primary_split {
        price_less_fees
    } else {
        bps_of(price_less_fees, info.seller_fee_basis_points as nat)
    }
}

/// True when creators are paid: a royalty is owed, royalties are enabled
/// and the item lists at least one creator.
pub open spec fn pays_creators(total_royalty: nat, info: RoyaltyInfo, disable_royalties: bool) -> bool {
    total_royalty > 0 && !disable_royalties && info.creators is Some && creators_of(info).len() > 0
}

/// The creators of a royalty record, empty when it lists none.
pub open spec fn creators_of(info: RoyaltyInfo) -> Seq<Creator> {
    match info.creators {
        Some(c) => c@,
        None => Seq::empty(),
    }
}

/// True when some amount of the split does not fit or the fees and
/// royalties exceed the proceeds.
pub open spec fn split_fails(
    m: GumballMachine,
    total: nat,
    marketplace_fee_bps: nat,
    info: RoyaltyInfo,
    balances: CreatorBalances,
    disable_primary_split: bool,
    disable_royalties: bool,
) -> bool {
    let mf = settle_marketplace_fee(m, total, marketplace_fee_bps);
    let cf = bps_of(total, m.settings.curator_fee_bps as nat);
    let plf = total - mf - cf;
    let tr = total_royalty_of(plf as nat, info, disable_primary_split);
    let creators = creators_of(info);
    ||| mf > u64::MAX
    ||| cf > u64::MAX
    ||| plf < 0
    ||| tr > u64::MAX
    ||| pays_creators(tr, info, disable_royalties) && ((exists|i: int|
        0 <= i < creators.len() && creator_fee(creators[i].share as nat, tr) > u64::MAX)
        || royalties_paid(shares_of(creators), balances, tr, creators.len() as int) > plf)
}

/// `s` divides `total` as `transfer_proceeds` does.
pub open spec fn is_split(
    s: ProceedsSplit,
    m: GumballMachine,
    total: nat,
    marketplace_fee_bps: nat,
    info: RoyaltyInfo,
    balances: CreatorBalances,
    disable_primary_split: bool,
    disable_royalties: bool,
) -> bool {
    let mf = settle_marketplace_fee(m, total, marketplace_fee_bps);
    let cf = bps_of(total, m.settings.curator_fee_bps as nat);
    let plf = total - mf - cf;
    let tr = total_royalty_of(plf as nat, info, disable_primary_split);
    let creators = creators_of(info);
    let paid = if pays_creators(tr, info, disable_royalties) {
        royalties_paid(shares_of(creators), balances, tr, creators.len() as int)
    } else {
        0
    };
    &&& s.total_proceeds == total
    &&& s.marketplace_fee == mf
    &&& s.curator_fee == cf
    &&& s.royalties_paid == paid
    &&& s.seller_proceeds == plf - paid
    &&& pays_creators(tr, info, disable_royalties) ==> s.creator_fees@.len() == creators.len()
        && forall|i: int|
        0 <= i < creators.len() ==> #[trigger] s.creator_fees@[i] == creator_payment(
            shares_of(creators),
            balances,
            tr,
            i,
        )
    &&& !pays_creators(tr, info, disable_royalties) ==> s.creator_fees@.len() == 0
}

/// The marketplace fee, the curator fee and what is left of `total`;
/// `None` when a fee does not fit or the fees exceed `total`.
fn fees_of(m: &GumballMachine, total: u64, marketplace_fee_bps: u16) -> (r: Option<(u64, u64, u64)>)
    ensures
        ({
            let mf = settle_marketplace_fee(*m, total as nat, marketplace_fee_bps as nat);
            let cf = bps_of(total as nat, m.settings.curator_fee_bps as nat);
            &&& r is None <==> (mf > u64::MAX || cf > u64::MAX || total - mf - cf < 0)
            &&& r matches Some((a, b, c)) ==> a == mf && b == cf && c == total - mf - cf
        }),
{
    let marketplace_fee: u64 = if m.version > 0 {
        0
    } else {
        match get_bps_of(total, marketplace_fee_bps) {
            Ok(f) => f,
            Err(_) => {
                return None;
            },
        }
    };
    let curator_fee = match get_bps_of(total, m.settings.curator_fee_bps) {
        Ok(f) => f,
        Err(_) => {
            return None;
        },
    };
    match total.checked_sub(marketplace_fee) {
        Some(x) => match x.checked_sub(curator_fee) {
            Some(y) => Some((marketplace_fee, curator_fee, y)),
            None => None,
        },
        None => None,
    }
}

/// The royalty owed on `price_less_fees`; `None` when it does not fit.
fn royalty_of(price_less_fees: u64, info: &RoyaltyInfo, disable_primary_split: bool) -> (r: Option<
    u64,
>)
    ensures
        r is None <==> total_royalty_of(price_less_fees as nat, *info, disable_primary_split)
            > u64::MAX,
        r matches Some(t) ==> t == total_royalty_of(
            price_less_fees as nat,
            *info,
            disable_primary_split,
        ),
{
    if info.is_primary_sale && !disable_primary_split {
        Some(price_less_fees)
    } else {
        match get_bps_of(price_less_fees, info.seller_fee_basis_points) {
            Ok(f) => Some(f),
            Err(_) => None,
        }
    }
}

/// The royalties owed on `total_royalty`, paid to the creators when
/// `pays_creators` holds and to nobody otherwise.
fn royalty_payments(
    royalty_info: &RoyaltyInfo,
    balances: &CreatorBalances,
    total_royalty: u64,
    disable_royalties: bool,
) -> (r: Result<(Vec<u64>, u64), GumballError>)
    requires
        balances.lamports@.len() == creators_of(*royalty_info).len(),
    ensures
        !pays_creators(total_royalty as nat, *royalty_info, disable_royalties) ==> (r matches Ok(
            (fees, paid),
        ) && fees@.len() == 0 && paid == 0),
        pays_creators(total_royalty as nat, *royalty_info, disable_royalties) ==> {
            let creators = creators_of(*royalty_info);
            let sum = royalties_paid(
                shares_of(creators),
                *balances,
                total_royalty as nat,
                creators.len() as int,
            );
            let too_big = exists|i: int|
                0 <= i < creators.len() && creator_fee(creators[i].share as nat, total_royalty as nat)
                    > u64::MAX;
            &&& (r is Err <==> (too_big || sum > u64::MAX))
            &&& r matches Ok((fees, paid)) ==> paid == sum && fees@.len() == creators.len()
                && forall|i: int|
                0 <= i < creators.len() ==> #[trigger] fees@[i] == creator_payment(
                    shares_of(creators),
                    *balances,
                    total_royalty as nat,
                    i,
                )
        },
{
    if total_royalty > 0 && !disable_royalties {
        match &royalty_info.creators {
            Some(creators) => {
                if creators.len() > 0 {
                    return pay_creator_royalties(creators, balances, total_royalty);
                }
            },
            None => {},
        }
    }
    Ok((Vec::new(), 0))
}

/// Divides one item's proceeds into marketplace fee, curator fee, creator
/// royalties and the seller's remainder. `balances` holds the creators'
/// account balances, which decide who is skipped.
#[verifier::rlimit(40)]
pub fn transfer_proceeds(
    gumball_machine: &GumballMachine,
    total_proceeds: u64,
    marketplace_fee_bps: u16,
    royalty_info: &RoyaltyInfo,
    balances: &CreatorBalances,
    disable_primary_split: bool,
    disable_royalties: bool,
) -> (r: Result<ProceedsSplit, GumballError>)
    requires
        balances.lamports@.len() == creators_of(*royalty_info).len(),
    ensures
        r is Err <==> split_fails(
            *gumball_machine,
            total_proceeds as nat,
            marketplace_fee_bps as nat,
            *royalty_info,
            *balances,
            disable_primary_split,
            disable_royalties,
        ),
        r matches Ok(s) ==> is_split(
            s,
            *gumball_machine,
            total_proceeds as nat,
            marketplace_fee_bps as nat,
            *royalty_info,
            *balances,
            disable_primary_split,
            disable_royalties,
        ),
{
    let (marketplace_fee, curator_fee, price_less_fees) = match fees_of(
        gumball_machine,
        total_proceeds,
        marketplace_fee_bps,
    ) {
        Some(x) => x,
        None => {
            return Err(GumballError::NumericalOverflowError);
        },
    };
    let total_royalty = match royalty_of(price_less_fees, royalty_info, disable_primary_split) {
        Some(t) => t,
        None => {
            return Err(GumballError::NumericalOverflowError);
        },
    };
    let (creator_fees, royalties_paid) = match royalty_payments(
        royalty_info,
        balances,
        total_royalty,
        disable_royalties,
    ) {
        Ok(x) => x,
        Err(e) => {
            return Err(e);
        },
    };
    let seller_proceeds = match price_less_fees.checked_sub(royalties_paid) {
        Some(x) => x,
        None => {
            return Err(GumballError::NumericalOverflowError);
        },
    };
    Ok(
        ProceedsSplit {
            total_proceeds,
            marketplace_fee,
            curator_fee,
            creator_fees,
            royalties_paid,
            seller_proceeds,
        },
    )
}

} // verus!

verus! {

/// Proceeds already settled; schema versions before 5 do not record them.
pub open spec fn proceeds_settled_of(m: GumballMachine, d: Seq<u8>) -> nat {
    if m.version >= 5 {
        le_u64(d, total_proceeds_settled_pos(m.cap(), m.version) as int)
    } else {
        0
    }
}

/// A one-byte flag of schema version 3 and later; false before.
pub open spec fn flag_at(m: GumballMachine, d: Seq<u8>, pos: nat) -> bool {
    m.version >= 3 && d[pos as int] == 1
}

/// Reads the total proceeds settled so far.
pub fn get_total_proceeds_settled(gumball_machine: &GumballMachine, data: &Vec<u8>) -> (r: u64)
    requires
        gumball_machine.layout_ok(data@),
    ensures
        r == proceeds_settled_of(*gumball_machine, data@),
{
    if gumball_machine.version < 5 {
        return 0;
    }
    match gumball_machine.get_total_proceeds_settled_position() {
        Ok(p) => read_u64(data, p),
        Err(_) => 0,
    }
}

/// Tells whether item `index` has been claimed.
pub fn is_item_claimed(gumball_machine: &GumballMachine, data: &Vec<u8>, index: u32) -> (r: bool)
    requires
        gumball_machine.layout_ok(data@),
        index < gumball_machine.cap(),
    ensures
        r == gumball_machine.claimed(data@, index as int),
{
    proof {
        lemma_mask_room(gumball_machine.cap(), index as int);
    }
    let base = claimed_pos_of(gumball_machine, data);
    test_bit(data, base, index as usize)
}

/// Marks item `index` as claimed and returns its quantity (one before
/// schema version 2). An item is claimed at most once.
pub fn claim_item(gumball_machine: &GumballMachine, data: &mut Vec<u8>, index: u32) -> (r: Result<
    u64,
    GumballError,
>)
    requires
        gumball_machine.layout_ok(old(data)@),
        index < gumball_machine.cap(),
    ensures
        gumball_machine.claimed(old(data)@, index as int) ==> r == Err::<u64, GumballError>(
            GumballError::ItemAlreadyClaimed,
        ) && final(data)@ == old(data)@,
        !gumball_machine.claimed(old(data)@, index as int) ==> {
            &&& r == Ok::<u64, GumballError>(
                gumball_machine.amount_at(old(data)@, index as int) as u64,
            )
            &&& final(data)@.len() == old(data)@.len()
            &&& gumball_machine.claimed(final(data)@, index as int)
            &&& forall|p: int|
                0 <= p < old(data)@.len() && p != claimed_pos(
                    gumball_machine.cap(),
                    gumball_machine.version,
                ) + index / 8 ==> #[trigger] final(data)@[p] == old(data)@[p]
            &&& forall|j: int|
                0 <= j < gumball_machine.cap() && j != index ==> #[trigger] gumball_machine.claimed(
                    final(data)@,
                    j,
                ) == gumball_machine.claimed(old(data)@, j)
            &&& forall|j: int|
                0 <= j < gumball_machine.cap() ==> #[trigger] gumball_machine.settled(
                    final(data)@,
                    j,
                ) == gumball_machine.settled(old(data)@, j)
            &&& gumball_machine.bits_consistent(old(data)@) ==> gumball_machine.bits_consistent(
                final(data)@,
            )
            &&& gumball_machine.dense(old(data)@) ==> gumball_machine.dense(final(data)@)
        },
{
    let ghost d0 = data@;
    let cap = gumball_machine.settings.item_capacity;
    let version = gumball_machine.version;
    proof {
        lemma_mask_room(cap as nat, index as int);
        lemma_line_below_masks(version, cap as nat, index as int);
    }
    let base = claimed_pos_of(gumball_machine, data);
    if test_bit(data, base, index as usize) {
        return Err(GumballError::ItemAlreadyClaimed);
    }
    let item_amount = if version >= 2 {
        let pos = GUMBALL_MACHINE_SIZE + 4 + (index as usize) * config_line_size(version);
        read_u64(data, pos + 97)
    } else {
        1
    };
    set_bit(data, base, index as usize);
    proof {
        assert forall|j: int| 0 <= j < cap && j != index implies #[trigger] gumball_machine.claimed(
            data@,
            j,
        ) == gumball_machine.claimed(d0, j) by {
            lemma_mask_room(cap as nat, j);
        }
        assert forall|j: int| 0 <= j < cap implies #[trigger] gumball_machine.settled(
            data@,
            j,
        ) == gumball_machine.settled(d0, j) by {
            lemma_mask_room(cap as nat, j);
        }
        lemma_u32_unchanged(data@, d0, crate::layout::count_pos());
    }
    Ok(item_amount)
}

/// A sale in a token other than the native currency names its payment
/// mint, which must be the machine's.
pub open spec fn payment_mint_ok(m: GumballMachine, payment_mint: Option<Pubkey>) -> bool {
    m.settings.payment_mint@ == native_mint_bytes() || (payment_mint matches Some(k) && k@
        == m.settings.payment_mint@)
}

fn check_payment_mint(m: &GumballMachine, payment_mint: &Option<Pubkey>) -> (r: bool)
    ensures
        r == payment_mint_ok(*m, *payment_mint),
{
    if is_native_mint(&m.settings.payment_mint) {
        return true;
    }
    match payment_mint {
        Some(k) => cmp_pubkeys(k, &m.settings.payment_mint),
        None => false,
    }
}

/// Outcome of settling item `index`: the first check that fails, in order.
pub open spec fn settle_check(
    m: GumballMachine,
    d: Seq<u8>,
    index: int,
    history: SellerHistory,
    info: RoyaltyInfo,
    balances: CreatorBalances,
    payment_mint: Option<Pubkey>,
) -> Result<(), GumballError> {
    let tps = proceeds_settled_of(m, d);
    let cap = m.cap();
    if !payment_mint_ok(m, payment_mint) {
        Err(GumballError::InvalidPaymentMint)
    } else if m.settled(d, index) {
        Err(GumballError::ItemAlreadySettled)
    } else {
        match total_proceeds_result(m, tps, count_of(d)) {
            Err(e) => Err(e),
            Ok(total) => if m.version >= 5 && tps + total > u64::MAX {
                Err(GumballError::NumericalOverflowError)
            } else if split_fails(
                m,
                total as nat,
                marketplace_bps(m),
                info,
                balances,
                flag_at(m, d, disable_primary_split_pos(cap, m.version)),
                flag_at(m, d, disable_royalties_pos(cap, m.version)),
            ) {
                Err(GumballError::NumericalOverflowError)
            } else if history.item_count == 0 || m.items_settled == u64::MAX {
                Err(GumballError::NumericalOverflowError)
            } else {
                Ok(())
            },
        }
    }
}

/// Settles item `index`: divides its share of the residual revenue, adds
/// that share to the proceeds settled (schema version 5 on), marks the item
/// settled, counts it in `items_settled` and takes it off the seller's
/// history. Settling an item twice is refused.
pub fn claim_proceeds(
    gumball_machine: &mut GumballMachine,
    data: &mut Vec<u8>,
    index: u32,
    seller_history: &mut SellerHistory,
    royalty_info: &RoyaltyInfo,
    balances: &CreatorBalances,
    payment_mint: Option<Pubkey>,
) -> (r: Result<ProceedsSplit, GumballError>)
    requires
        old(gumball_machine).layout_ok(old(data)@),
        index < old(gumball_machine).cap(),
        balances.lamports@.len() == creators_of(*royalty_info).len(),
    ensures
        r matches Err(e) ==> settle_check(
            *old(gumball_machine),
            old(data)@,
            index as int,
            *old(seller_history),
            *royalty_info,
            *balances,
            payment_mint,
        ) == Err::<(), GumballError>(e),
        settle_check(
            *old(gumball_machine),
            old(data)@,
            index as int,
            *old(seller_history),
            *royalty_info,
            *balances,
            payment_mint,
        ) is Ok <==> r is Ok,
        r is Err ==> *final(gumball_machine) == *old(gumball_machine) && final(data)@ == old(
            data,
        )@ && *final(seller_history) == *old(seller_history),
        r matches Ok(s) ==> {
            let m = *old(gumball_machine);
            let d = old(data)@;
            let cap = m.cap();
            let tps = proceeds_settled_of(m, d);
            &&& total_proceeds_result(m, tps, count_of(d)) == Ok::<u64, GumballError>(
                s.total_proceeds,
            )
            &&& is_split(
                s,
                m,
                s.total_proceeds as nat,
                marketplace_bps(m),
                *royalty_info,
                *balances,
                flag_at(m, d, disable_primary_split_pos(cap, m.version)),
                flag_at(m, d, disable_royalties_pos(cap, m.version)),
            )
            &&& *final(gumball_machine) == (GumballMachine {
                items_settled: (m.items_settled + 1) as u64,
                ..m
            })
            &&& *final(seller_history) == (SellerHistory {
                item_count: (old(seller_history).item_count - 1) as u64,
                ..*old(seller_history)
            })
            &&& final(data)@.len() == d.len()
            &&& m.settled(final(data)@, index as int)
            &&& forall|j: int|
                0 <= j < cap && j != index ==> #[trigger] m.settled(final(data)@, j) == m.settled(
                    d,
                    j,
                )
            &&& forall|j: int| 0 <= j < cap ==> #[trigger] m.claimed(final(data)@, j) == m.claimed(d, j)
            &&& proceeds_settled_of(m, final(data)@) == if m.version >= 5 {
                tps + s.total_proceeds
            } else {
                0
            }
            &&& forall|p: int|
                0 <= p < settled_pos(cap, m.version) ==> #[trigger] final(data)@[p] == d[p]
        },
{
    let ghost d0 = data@;
    let ghost m0 = *gumball_machine;
    let cap = gumball_machine.settings.item_capacity;
    let version = gumball_machine.version;
    proof {
        lemma_mask_room(cap as nat, index as int);
    }
    if !check_payment_mint(gumball_machine, &payment_mint) {
        return Err(GumballError::InvalidPaymentMint);
    }
    let settled_base = settled_pos_of(gumball_machine, data);
    if test_bit(data, settled_base, index as usize) {
        return Err(GumballError::ItemAlreadySettled);
    }
    let config_count = get_config_count(data) as u64;
    let total_proceeds_settled = get_total_proceeds_settled(gumball_machine, data);
    let (total_proceeds, marketplace_fee_bps) = match get_total_proceeds(
        gumball_machine,
        total_proceeds_settled,
        config_count,
    ) {
        Ok(x) => x,
        Err(e) => {
            return Err(e);
        },
    };
    let new_total_settled = if version >= 5 {
        match total_proceeds_settled.checked_add(total_proceeds) {
            Some(t) => t,
            None => {
                return Err(GumballError::NumericalOverflowError);
            },
        }
    } else {
        0
    };
    let (disable_primary_split, disable_royalties) = if version >= 3 {
        let royalties_pos = match gumball_machine.get_disable_royalties_position() {
            Ok(p) => p,
            Err(_) => 0,
        };
        let split_pos = royalties_pos + 4;
        (data[split_pos] == 1, data[royalties_pos] == 1)
    } else {
        (false, false)
    };
    let split = match transfer_proceeds(
        gumball_machine,
        total_proceeds,
        marketplace_fee_bps,
        royalty_info,
        balances,
        disable_primary_split,
        disable_royalties,
    ) {
        Ok(s) => s,
        Err(_) => {
            return Err(GumballError::NumericalOverflowError);
        },
    };
    if seller_history.item_count == 0 || gumball_machine.items_settled == u64::MAX {
        return Err(GumballError::NumericalOverflowError);
    }
    set_bit(data, settled_base, index as usize);
    let ghost d1 = data@;
    if version >= 5 {
        let pos = match gumball_machine.get_total_proceeds_settled_position() {
            Ok(p) => p,
            Err(_) => 0,
        };
        write_u64(data, pos, new_total_settled);
    }
    proof {
        assert forall|j: int| 0 <= j < cap && j != index implies #[trigger] m0.settled(data@, j)
            == m0.settled(d0, j) by {
            lemma_mask_room(cap as nat, j);
            assert(m0.settled(d1, j) == m0.settled(d0, j));
        }
        assert forall|j: int| 0 <= j < cap implies #[trigger] m0.claimed(data@, j) == m0.claimed(
            d0,
            j,
        ) by {
            lemma_mask_room(cap as nat, j);
        }
    }
    seller_history.item_count = seller_history.item_count - 1;
    gumball_machine.items_settled = gumball_machine.items_settled + 1;
    Ok(split)
}

} // verus!

verus! {

/// What `settle_item` did.
#[derive(Clone, Debug)]
pub struct SettleOutcome {
    /// True when the item was claimed by this call; the caller then hands
    /// the asset to its recipient.
    pub claimed_now: bool,
    /// Quantity of the item when it was claimed by this call, else zero.
    pub amount: u64,
    /// How the item's proceeds are divided.
    pub split: ProceedsSplit,
}

/// Outcome of `settle_item`: the first check that fails, in order.
pub open spec fn settle_item_check(
    m: GumballMachine,
    d: Seq<u8>,
    index: int,
    history: SellerHistory,
    info: RoyaltyInfo,
    balances: CreatorBalances,
    payment_mint: Option<Pubkey>,
) -> Result<(), GumballError> {
    if !m.spec_can_settle_items() {
        Err(GumballError::InvalidState)
    } else if index >= count_of(d) {
        Err(GumballError::IndexGreaterThanLength)
    } else {
        settle_check(m, d, index, history, info, balances, payment_mint)
    }
}

/// Claims item `index` if it is not claimed yet, then settles it. A
/// settled item is never settled again: the second call is refused and
/// changes nothing.
pub fn settle_item(
    gumball_machine: &mut GumballMachine,
    data: &mut Vec<u8>,
    index: u32,
    seller_history: &mut SellerHistory,
    royalty_info: &RoyaltyInfo,
    balances: &CreatorBalances,
    payment_mint: Option<Pubkey>,
) -> (r: Result<SettleOutcome, GumballError>)
    requires
        old(gumball_machine).layout_ok(old(data)@),
        balances.lamports@.len() == creators_of(*royalty_info).len(),
    ensures
        r matches Err(e) ==> settle_item_check(
            *old(gumball_machine),
            old(data)@,
            index as int,
            *old(seller_history),
            *royalty_info,
            *balances,
            payment_mint,
        ) == Err::<(), GumballError>(e),
        settle_item_check(
            *old(gumball_machine),
            old(data)@,
            index as int,
            *old(seller_history),
            *royalty_info,
            *balances,
            payment_mint,
        ) is Ok <==> r is Ok,
        r is Err ==> *final(gumball_machine) == *old(gumball_machine) && final(data)@ == old(
            data,
        )@ && *final(seller_history) == *old(seller_history),
        r matches Ok(o) ==> {
            let m = *old(gumball_machine);
            let d = old(data)@;
            let cap = m.cap();
            &&& o.claimed_now == !m.claimed(d, index as int)
            &&& o.amount == if o.claimed_now {
                m.amount_at(d, index as int)
            } else {
                0
            }
            &&& total_proceeds_result(m, proceeds_settled_of(m, d), count_of(d)) == Ok::<
                u64,
                GumballError,
            >(o.split.total_proceeds)
            &&& is_split(
                o.split,
                m,
                o.split.total_proceeds as nat,
                marketplace_bps(m),
                *royalty_info,
                *balances,
                flag_at(m, d, disable_primary_split_pos(cap, m.version)),
                flag_at(m, d, disable_royalties_pos(cap, m.version)),
            )
            &&& *final(gumball_machine) == (GumballMachine {
                items_settled: (m.items_settled + 1) as u64,
                ..m
            })
            &&& *final(seller_history) == (SellerHistory {
                item_count: (old(seller_history).item_count - 1) as u64,
                ..*old(seller_history)
            })
            &&& final(data)@.len() == d.len()
            &&& m.claimed(final(data)@, index as int)
            &&& m.settled(final(data)@, index as int)
            &&& forall|j: int|
                0 <= j < cap && j != index ==> #[trigger] m.settled(final(data)@, j) == m.settled(
                    d,
                    j,
                ) && m.claimed(final(data)@, j) == m.claimed(d, j)
            &&& proceeds_settled_of(m, final(data)@) == if m.version >= 5 {
                proceeds_settled_of(m, d) + o.split.total_proceeds
            } else {
                0
            }
            &&& m.bits_consistent(d) ==> m.bits_consistent(final(data)@)
            &&& m.dense(d) ==> m.dense(final(data)@)
        },
{
    let ghost d0 = data@;
    let ghost m0 = *gumball_machine;
    if !gumball_machine.can_settle_items() {
        return Err(GumballError::InvalidState);
    }
    let count = get_config_count(data);
    if index as usize >= count {
        return Err(GumballError::IndexGreaterThanLength);
    }
    let claimed_now = !is_item_claimed(gumball_machine, data, index);
    let split = match claim_proceeds(
        gumball_machine,
        data,
        index,
        seller_history,
        royalty_info,
        balances,
        payment_mint,
    ) {
        Ok(s) => s,
        Err(e) => {
            return Err(e);
        },
    };
    let ghost d1 = data@;
    let ghost m1 = *gumball_machine;
    proof {
        lemma_line_below_masks(m0.version, m0.cap(), index as int);
        assert(m0.claimed(d1, index as int) == m0.claimed(d0, index as int));
        assert(m0.amount_at(d1, index as int) == m0.amount_at(d0, index as int)) by {
            if m0.version >= 2 {
                lemma_u64_unchanged(d1, d0, m0.line_start(index as int) + 97);
            }
        }
        assert(m1.cap() == m0.cap() && m1.version == m0.version);
    }
    let amount = if claimed_now {
        match claim_item(gumball_machine, data, index) {
            Ok(a) => a,
            Err(_) => 0,
        }
    } else {
        0
    };
    proof {
        assert forall|j: int| 0 <= j < m0.cap() && j != index implies #[trigger] m0.settled(data@, j)
            == m0.settled(d0, j) && m0.claimed(data@, j) == m0.claimed(d0, j) by {
            lemma_mask_room(m0.cap(), j);
            lemma_mask_room(m0.cap(), index as int);
            assert(m0.claimed(data@, j) == m1.claimed(data@, j));
            assert(m0.claimed(d1, j) == m1.claimed(d1, j));
            if claimed_now {
                assert(m1.claimed(data@, j) == m1.claimed(d1, j));
            }
            assert(m0.settled(d1, j) == m0.settled(d0, j));
            assert(m0.claimed(d1, j) == m0.claimed(d0, j));
        }
        if claimed_now {
            lemma_mask_room(m0.cap(), index as int);
            assert(m0.settled(data@, index as int) == m0.settled(d1, index as int));
        }
        lemma_u32_unchanged(d1, d0, crate::layout::count_pos());
        if claimed_now {
            assert(m1.dense(d1) ==> m1.dense(data@));
        }
        if m0.version >= 5 {
            lemma_u64_unchanged(
                data@,
                d1,
                total_proceeds_settled_pos(m0.cap(), m0.version) as int,
            );
        }
    }
    Ok(SettleOutcome { claimed_now, amount, split })
}

} // verus!

verus! {

/// Sets bits `[lo, hi)` of the mask at `base`.
fn set_bits(d: &mut Vec<u8>, base: usize, lo: u32, hi: u32, cap: u64)
    requires
        lo <= hi <= cap,
        base + mask_len(cap as nat) <= old(d)@.len(),
    ensures
        final(d)@.len() == old(d)@.len(),
        forall|j: int| lo <= j < hi ==> #[trigger] bit_is_set(final(d)@, base as int, j),
        forall|j: int|
            0 <= j < cap && !(lo <= j < hi) ==> #[trigger] bit_is_set(final(d)@, base as int, j)
                == bit_is_set(old(d)@, base as int, j),
        forall|p: int|
            0 <= p < old(d)@.len() && !(base <= p < base + mask_len(cap as nat))
                ==> #[trigger] final(d)@[p] == old(d)@[p],
{
    let ghost d0 = d@;
    let n: usize = d.len();
    let mut j: u32 = lo;
    while j < hi
        invariant
            lo <= j <= hi,
            hi <= cap,
            base + mask_len(cap as nat) <= n,
            n == d@.len(),
            n == d0.len(),
            forall|k: int| lo <= k < j ==> #[trigger] bit_is_set(d@, base as int, k),
            forall|k: int|
                0 <= k < cap && !(lo <= k < j) ==> #[trigger] bit_is_set(d@, base as int, k)
                    == bit_is_set(d0, base as int, k),
            forall|p: int|
                0 <= p < n && !(base <= p < base + mask_len(cap as nat)) ==> #[trigger] d@[p]
                    == d0[p],
        decreases hi - j,
    {
        proof {
            lemma_mask_room(cap as nat, j as int);
        }
        let ghost before = d@;
        set_bit(d, base, j as usize);
        proof {
            assert forall|k: int| lo <= k < j + 1 implies #[trigger] bit_is_set(d@, base as int, k) by {
                lemma_mask_room(cap as nat, k);
                if k < j {
                    assert(bit_is_set(before, base as int, k));
                }
            }
            assert forall|k: int| 0 <= k < cap && !(lo <= k < j + 1) implies #[trigger] bit_is_set(
                d@,
                base as int,
                k,
            ) == bit_is_set(d0, base as int, k) by {
                lemma_mask_room(cap as nat, k);
                assert(bit_is_set(before, base as int, k) == bit_is_set(d0, base as int, k));
            }
        }
        j = j + 1;
    }
}

/// Outcome of the checks on one line of a span settlement.
pub open spec fn span_item_check(
    m: GumballMachine,
    d: Seq<u8>,
    i: int,
    mint: Seq<u8>,
    seller: Seq<u8>,
) -> Result<(), GumballError> {
    if mint != m.mint_at(d, i) {
        Err(GumballError::InvalidMint)
    } else if seller != m.seller_at(d, i) {
        Err(GumballError::InvalidSeller)
    } else if !(m.buyer_at(d, i) == zero_key() || m.claimed(d, i)) {
        Err(GumballError::InvalidBuyer)
    } else if m.standard_at(d, i) != standard_byte(TokenStandard::Fungible) {
        Err(GumballError::InvalidTokenStandard)
    } else if m.settled(d, i) {
        Err(GumballError::ItemAlreadySettled)
    } else {
        Ok(())
    }
}

/// The first failing line check over `[i, end]`.
pub open spec fn span_items_check(
    m: GumballMachine,
    d: Seq<u8>,
    i: int,
    end: int,
    mint: Seq<u8>,
    seller: Seq<u8>,
) -> Result<(), GumballError>
    decreases end - i + 1,
{
    if i > end {
        Ok(())
    } else {
        match span_item_check(m, d, i, mint, seller) {
            Err(e) => Err(e),
            Ok(()) => span_items_check(m, d, i + 1, end, mint, seller),
        }
    }
}

/// Quantity of the unclaimed (unsold) lines in `[start, i)`.
pub open spec fn unsold_sum(m: GumballMachine, d: Seq<u8>, start: int, i: int) -> nat
    decreases i - start,
{
    if i <= start {
        0
    } else {
        unsold_sum(m, d, start, i - 1) + if !m.claimed(d, i - 1) {
            m.amount_at(d, i - 1)
        } else {
            0
        }
    }
}

/// What a span settlement did.
#[derive(Clone, Debug)]
pub struct SpanSettlement {
    /// Unsold quantity to return to the seller.
    pub unsold_tokens: u64,
    /// How the span's proceeds are divided.
    pub split: ProceedsSplit,
}

/// Outcome of `settle_span` before the proceeds split: the first failing
/// check, or the span's total proceeds.
pub open spec fn span_settle_result(
    m: GumballMachine,
    d: Seq<u8>,
    history: SellerHistory,
    mint: Seq<u8>,
    seller: Seq<u8>,
    start: int,
    end: int,
) -> Result<u64, GumballError> {
    let k = end - start + 1;
    let tps = proceeds_settled_of(m, d);
    if !m.spec_can_settle_items() {
        Err(GumballError::InvalidState)
    } else if start > end {
        Err(GumballError::InvalidInputLength)
    } else if end >= count_of(d) {
        Err(GumballError::IndexGreaterThanLength)
    } else {
        match span_items_check(m, d, start, end, mint, seller) {
            Err(e) => Err(e),
            Ok(()) => if unsold_sum(m, d, start, end + 1) > u64::MAX {
                Err(GumballError::NumericalOverflowError)
            } else {
                match total_proceeds_result(m, tps, count_of(d)) {
                    Err(e) => Err(e),
                    Ok(each) => if each * k > u64::MAX || (m.version >= 5 && tps + each * k
                        > u64::MAX) || history.item_count < k || m.items_settled + k > u64::MAX
                        || bps_of((each * k) as nat, m.settings.curator_fee_bps as nat) > each * k {
                        Err(GumballError::NumericalOverflowError)
                    } else {
                        Ok((each * k) as u64)
                    },
                }
            },
        }
    }
}

/// Settles the fungible lines `[start_index, end_index]` of one seller in
/// one pass: unsold lines are claimed (their quantity returns to the
/// seller), every line is marked settled, and the span's share of the
/// revenue is split once, without royalties.
#[verifier::rlimit(100)]
pub fn settle_span(
    gumball_machine: &mut GumballMachine,
    data: &mut Vec<u8>,
    seller_history: &mut SellerHistory,
    mint: &Pubkey,
    seller: &Pubkey,
    start_index: u32,
    end_index: u32,
) -> (r: Result<SpanSettlement, GumballError>)
    requires
        old(gumball_machine).layout_ok(old(data)@),
    ensures
        r matches Err(e) ==> span_settle_result(
            *old(gumball_machine),
            old(data)@,
            *old(seller_history),
            mint@,
            seller@,
            start_index as int,
            end_index as int,
        ) == Err::<u64, GumballError>(e),
        span_settle_result(
            *old(gumball_machine),
            old(data)@,
            *old(seller_history),
            mint@,
            seller@,
            start_index as int,
            end_index as int,
        ) is Ok <==> r is Ok,
        r is Err ==> *final(gumball_machine) == *old(gumball_machine) && final(data)@ == old(
            data,
        )@ && *final(seller_history) == *old(seller_history),
        r matches Ok(o) ==> {
            let m = *old(gumball_machine);
            let d = old(data)@;
            let k = end_index - start_index + 1;
            &&& span_settle_result(
                m,
                d,
                *old(seller_history),
                mint@,
                seller@,
                start_index as int,
                end_index as int,
            ) == Ok::<u64, GumballError>(o.split.total_proceeds)
            &&& o.unsold_tokens == unsold_sum(m, d, start_index as int, end_index + 1)
            &&& o.split.marketplace_fee == 0
            &&& o.split.curator_fee == bps_of(
                o.split.total_proceeds as nat,
                m.settings.curator_fee_bps as nat,
            )
            &&& o.split.royalties_paid == 0
            &&& o.split.seller_proceeds == o.split.total_proceeds - o.split.curator_fee
            &&& *final(gumball_machine) == (GumballMachine {
                items_settled: (m.items_settled + k) as u64,
                ..m
            })
            &&& *final(seller_history) == (SellerHistory {
                item_count: (old(seller_history).item_count - k) as u64,
                ..*old(seller_history)
            })
            &&& final(data)@.len() == d.len()
            &&& forall|j: int|
                start_index <= j <= end_index ==> #[trigger] m.claimed(final(data)@, j)
                    && m.settled(final(data)@, j)
            &&& forall|j: int|
                0 <= j < m.cap() && !(start_index <= j <= end_index) ==> #[trigger] m.claimed(
                    final(data)@,
                    j,
                ) == m.claimed(d, j) && m.settled(final(data)@, j) == m.settled(d, j)
            &&& proceeds_settled_of(m, final(data)@) == if m.version >= 5 {
                proceeds_settled_of(m, d) + o.split.total_proceeds
            } else {
                0
            }
            &&& m.bits_consistent(d) ==> m.bits_consistent(final(data)@)
            &&& m.dense(d) ==> m.dense(final(data)@)
        },
{
    let ghost d0 = data@;
    let ghost m0 = *gumball_machine;
    if !gumball_machine.can_settle_items() {
        return Err(GumballError::InvalidState);
    }
    if start_index > end_index {
        return Err(GumballError::InvalidInputLength);
    }
    let config_count = get_config_count(data);
    if end_index as usize >= config_count {
        return Err(GumballError::IndexGreaterThanLength);
    }
    let cap = gumball_machine.settings.item_capacity;
    let version = gumball_machine.version;
    let claimed_base = claimed_pos_of(gumball_machine, data);
    let settled_base = settled_pos_of(gumball_machine, data);
    let zero = Pubkey::default_key();
    match check_span_lines(gumball_machine, data, mint, seller, start_index, end_index) {
        Ok(()) => {},
        Err(e) => {
            return Err(e);
        },
    }
    let unsold = match sum_unsold(gumball_machine, data, start_index, end_index) {
        Some(u) => u,
        None => {
            return Err(GumballError::NumericalOverflowError);
        },
    };
    let total_proceeds_settled = get_total_proceeds_settled(gumball_machine, data);
    let (each, _) = match get_total_proceeds(
        gumball_machine,
        total_proceeds_settled,
        config_count as u64,
    ) {
        Ok(x) => x,
        Err(e) => {
            return Err(e);
        },
    };
    let k = (end_index - start_index + 1) as u64;
    let total_proceeds = match each.checked_mul(k) {
        Some(t) => t,
        None => {
            return Err(GumballError::NumericalOverflowError);
        },
    };
    let new_total_settled = if version >= 5 {
        match total_proceeds_settled.checked_add(total_proceeds) {
            Some(t) => t,
            None => {
                return Err(GumballError::NumericalOverflowError);
            },
        }
    } else {
        0
    };
    if seller_history.item_count < k {
        return Err(GumballError::NumericalOverflowError);
    }
    if gumball_machine.items_settled > u64::MAX - k {
        return Err(GumballError::NumericalOverflowError);
    }
    let no_royalties = RoyaltyInfo {
        is_primary_sale: false,
        seller_fee_basis_points: 0,
        creators: None,
    };
    let no_payees = CreatorBalances { lamports: Vec::new(), minimum_balance: 0, is_native: false };
    let split = match transfer_proceeds(
        gumball_machine,
        total_proceeds,
        0,
        &no_royalties,
        &no_payees,
        true,
        true,
    ) {
        Ok(s) => s,
        Err(_) => {
            return Err(GumballError::NumericalOverflowError);
        },
    };
    set_bits(data, claimed_base, start_index, end_index + 1, cap);
    let ghost d1 = data@;
    set_bits(data, settled_base, start_index, end_index + 1, cap);
    let ghost d2 = data@;
    if version >= 5 {
        let pos = match gumball_machine.get_total_proceeds_settled_position() {
            Ok(p) => p,
            Err(_) => 0,
        };
        write_u64(data, pos, new_total_settled);
    }
    proof {
        assert forall|j: int| 0 <= j < cap implies #[trigger] m0.claimed(data@, j) == m0.claimed(d1, j)
            && m0.settled(data@, j) == m0.settled(d2, j) && m0.claimed(d2, j) == m0.claimed(d1, j)
            by {
            lemma_mask_room(cap as nat, j);
        }
        assert forall|j: int| 0 <= j < cap implies #[trigger] m0.settled(d1, j) == m0.settled(d0, j)
            by {
            lemma_mask_room(cap as nat, j);
        }
        if version < 5 {
            assert(proceeds_settled_of(m0, data@) == 0);
        }
    }
    assert(split.marketplace_fee == 0);
    assert(split.royalties_paid == 0);
    assert(split.seller_proceeds == split.total_proceeds - split.curator_fee);
    assert(proceeds_settled_of(m0, data@) == if m0.version >= 5 {
        proceeds_settled_of(m0, d0) + split.total_proceeds
    } else {
        0
    });
    assert forall|j: int| start_index <= j <= end_index implies #[trigger] m0.claimed(data@, j)
        && m0.settled(data@, j) by {
        lemma_mask_room(cap as nat, j);
        assert(bit_is_set(d1, claimed_base as int, j));
        assert(bit_is_set(d2, settled_base as int, j));
        assert(m0.claimed(d2, j) == m0.claimed(d1, j));
        assert(m0.claimed(data@, j) == m0.claimed(d1, j));
        assert(m0.settled(data@, j) == m0.settled(d2, j));
    }
    assert(total_proceeds == each * k);
    assert forall|q: int| 0 <= q < claimed_pos(cap as nat, version) implies #[trigger] data@[q]
        == d0[q] by {
        assert(data@[q] == d2[q]);
        assert(d2[q] == d1[q]);
    }
    assert(span_settle_result(
        m0,
        d0,
        *seller_history,
        mint@,
        seller@,
        start_index as int,
        end_index as int,
    ) == Ok::<u64, GumballError>(split.total_proceeds));
    assert forall|j: int| 0 <= j < m0.cap() && !(start_index <= j <= end_index) implies #[trigger] m0.claimed(
        data@,
        j,
    ) == m0.claimed(d0, j) && m0.settled(data@, j) == m0.settled(d0, j) by {
        lemma_mask_room(cap as nat, j);
        assert(m0.claimed(data@, j) == m0.claimed(d1, j));
        assert(m0.settled(data@, j) == m0.settled(d2, j));
        assert(m0.settled(d1, j) == m0.settled(d0, j));
    }
    seller_history.item_count = seller_history.item_count - k;
    gumball_machine.items_settled = gumball_machine.items_settled + k;
    Ok(SpanSettlement { unsold_tokens: unsold, split })
}

/// Checks every line of `[start_index, end_index]`, first failure first.
fn check_span_lines(
    gumball_machine: &GumballMachine,
    data: &Vec<u8>,
    mint: &Pubkey,
    seller: &Pubkey,
    start_index: u32,
    end_index: u32,
) -> (r: Result<(), GumballError>)
    requires
        gumball_machine.layout_ok(data@),
        start_index <= end_index < count_of(data@),
    ensures
        r == span_items_check(
            *gumball_machine,
            data@,
            start_index as int,
            end_index as int,
            mint@,
            seller@,
        ),
{
    let ghost d0 = data@;
    let ghost m0 = *gumball_machine;
    let config_count = get_config_count(data);
    let cap = gumball_machine.settings.item_capacity;
    let version = gumball_machine.version;
    let claimed_base = claimed_pos_of(gumball_machine, data);
    let settled_base = settled_pos_of(gumball_machine, data);
    let zero = Pubkey::default_key();
    // every line must match and be unsettled
    let mut i: u32 = start_index;
    while i <= end_index
        invariant
            start_index <= i <= end_index + 1,
            end_index < config_count,
            config_count == count_of(d0),
            data@ == d0,
            m0 == *gumball_machine,
            m0.layout_ok(d0),
            cap == m0.settings.item_capacity,
            version == m0.version,
            claimed_base == claimed_pos(cap as nat, version),
            settled_base == settled_pos(cap as nat, version),
            zero@ == zero_key(),
            span_items_check(m0, d0, start_index as int, end_index as int, mint@, seller@)
                == span_items_check(m0, d0, i as int, end_index as int, mint@, seller@),
        decreases end_index + 1 - i,
    {
        proof {
            lemma_line_below_masks(version, cap as nat, i as int);
            lemma_mask_room(cap as nat, i as int);
        }
        let pos = GUMBALL_MACHINE_SIZE + 4 + (i as usize) * config_line_size(version);
        let is_claimed = test_bit(data, claimed_base, i as usize);
        let failure: Option<GumballError> = if !key_at_equals(data, pos, mint) {
            Some(GumballError::InvalidMint)
        } else if !key_at_equals(data, pos + 32, seller) {
            Some(GumballError::InvalidSeller)
        } else if !(key_at_equals(data, pos + 64, &zero) || is_claimed) {
            Some(GumballError::InvalidBuyer)
        } else if data[pos + 96] != TokenStandard::Fungible.to_byte() {
            Some(GumballError::InvalidTokenStandard)
        } else if test_bit(data, settled_base, i as usize) {
            Some(GumballError::ItemAlreadySettled)
        } else {
            None
        };
        match failure {
            Some(err) => {
                assert(span_items_check(m0, d0, i as int, end_index as int, mint@, seller@)
                    == Err::<(), GumballError>(err));
                return Err(err);
            },
            None => {},
        }
        i = i + 1;
    }
    Ok(())
}

/// Sums the quantities of the unclaimed lines of `[start_index,
/// end_index]`; `None` when the sum does not fit.
fn sum_unsold(gumball_machine: &GumballMachine, data: &Vec<u8>, start_index: u32, end_index: u32) -> (r:
    Option<u64>)
    requires
        gumball_machine.layout_ok(data@),
        start_index <= end_index < count_of(data@),
    ensures
        r matches Some(u) ==> u == unsold_sum(
            *gumball_machine,
            data@,
            start_index as int,
            end_index + 1,
        ),
        r is None ==> unsold_sum(*gumball_machine, data@, start_index as int, end_index + 1)
            > u64::MAX,
{
    let ghost d0 = data@;
    let ghost m0 = *gumball_machine;
    let config_count = get_config_count(data);
    let cap = gumball_machine.settings.item_capacity;
    let version = gumball_machine.version;
    let claimed_base = claimed_pos_of(gumball_machine, data);
    let mut unsold: u64 = 0;
    let mut i: u32 = start_index;
    while i <= end_index
        invariant
            start_index <= i <= end_index + 1,
            end_index < config_count,
            config_count == count_of(d0),
            data@ == d0,
            m0 == *gumball_machine,
            m0.layout_ok(d0),
            cap == m0.settings.item_capacity,
            version == m0.version,
            claimed_base == claimed_pos(cap as nat, version),
            unsold == unsold_sum(m0, d0, start_index as int, i as int),
        decreases end_index + 1 - i,
    {
        proof {
            lemma_line_below_masks(version, cap as nat, i as int);
            lemma_mask_room(cap as nat, i as int);
        }
        if !test_bit(data, claimed_base, i as usize) {
            let pos = GUMBALL_MACHINE_SIZE + 4 + (i as usize) * config_line_size(version);
            let amount = if version >= 2 {
                read_u64(data, pos + 97)
            } else {
                1
            };
            unsold = match unsold.checked_add(amount) {
                Some(u) => u,
                None => {
                    proof {
                        assert(unsold_sum(m0, d0, start_index as int, i + 1) == unsold + amount);
                        lemma_unsold_monotonic(m0, d0, start_index as int, i + 1, end_index + 1);
                    }
                    return None;
                },
            };
        }
        i = i + 1;
    }
    Some(unsold)
}

pub proof fn lemma_unsold_monotonic(m: GumballMachine, d: Seq<u8>, start: int, a: int, b: int)
    requires
        start <= a <= b,
    ensures
        unsold_sum(m, d, start, a) <= unsold_sum(m, d, start, b),
    decreases b - a,
{
    if a < b {
        lemma_unsold_monotonic(m, d, start, a, b - 1);
    }
}

} // verus!

verus! {

/// Claims fungible item `index` for `recipient`: the stored line must be
/// exactly `config_line`, the item must not be claimed yet, and the
/// recipient must not be the all-zero address. Returns the quantity the
/// caller then transfers.
pub fn claim_tokens(
    gumball_machine: &GumballMachine,
    data: &mut Vec<u8>,
    index: u32,
    config_line: &ConfigLine,
    recipient: &Pubkey,
) -> (r: Result<u64, GumballError>)
    requires
        gumball_machine.layout_ok(old(data)@),
    ensures
        config_line_check(*gumball_machine, old(data)@, index as int, *config_line) matches Err(e)
            ==> r == Err::<u64, GumballError>(e),
        config_line_check(*gumball_machine, old(data)@, index as int, *config_line) is Ok ==> r == (
        if gumball_machine.claimed(old(data)@, index as int) {
            Err::<u64, GumballError>(GumballError::ItemAlreadyClaimed)
        } else if recipient@ == zero_key() {
            Err(GumballError::InvalidAuthority)
        } else {
            Ok(gumball_machine.amount_at(old(data)@, index as int) as u64)
        }),
        r is Err ==> final(data)@ == old(data)@,
        r is Ok ==> {
            &&& gumball_machine.claimed(final(data)@, index as int)
            &&& forall|j: int|
                0 <= j < gumball_machine.cap() && j != index ==> #[trigger] gumball_machine.claimed(
                    final(data)@,
                    j,
                ) == gumball_machine.claimed(old(data)@, j)
            &&& forall|j: int|
                0 <= j < gumball_machine.cap() ==> #[trigger] gumball_machine.settled(
                    final(data)@,
                    j,
                ) == gumball_machine.settled(old(data)@, j)
            &&& gumball_machine.dense(old(data)@) ==> gumball_machine.dense(final(data)@)
        },
{
    match assert_config_line(gumball_machine, data, index, config_line) {
        Ok(()) => {},
        Err(e) => {
            return Err(e);
        },
    }
    if is_item_claimed(gumball_machine, data, index) {
        return Err(GumballError::ItemAlreadyClaimed);
    }
    if recipient.is_zero() {
        return Err(GumballError::InvalidAuthority);
    }
    claim_item(gumball_machine, data, index)
}

} // verus!
