//! Draw guards: the conditions a buyer must meet before a draw and the
//! payments taken with it. Each guard decides from plain values; reading
//! accounts and moving tokens is left to the caller.

use vstd::prelude::*;

use crate::pubkey::{cmp_pubkeys, is_native_mint, native_mint_bytes, Pubkey};
use crate::settlement::{bps_of, get_bps_of};
use crate::state::{GumballMachine, GumballState};

verus! {

/// Why a guard refused a draw.
#[derive(Debug, Clone, Copy, PartialEq, Eq, Structural)]
pub enum GumballGuardError {
    /// The guard's currency is not the machine's payment currency.
    InvalidPaymentMint,
    /// The payer holds too few tokens.
    NotEnoughTokens,
    /// The payer holds too few lamports.
    NotEnoughSOL,
    /// The redeemed limit is reached.
    MaximumRedeemedAmount,
    /// The sale has not started yet.
    MintNotLive,
    /// The NFT is not of the required collection.
    InvalidNftCollection,
    /// The buyer does not hold the NFT.
    MissingNft,
    /// A checked operation failed.
    NumericalOverflowError,
}

/// How a draw payment is divided.
#[derive(Clone, Copy, Debug, PartialEq, Eq, Structural)]
pub struct PaymentSplit {
    /// Fee sent to the marketplace at draw time.
    pub marketplace_fee: u64,
    /// What goes to the machine's escrow.
    pub price_less_fees: u64,
    /// Amount added to the machine's total revenue.
    pub revenue: u64,
}

/// Marketplace fee rate charged at draw time: schema version 0 charges it
/// at settlement instead.
pub open spec fn draw_fee_bps(m: GumballMachine) -> nat {
    match m.marketplace_fee_config {
        Some(f) => if m.version == 0 {
            0
        } else {
            f.fee_bps as nat
        },
        None => 0,
    }
}

/// Number of guard accounts a payment consumes: `base`, plus the fee
/// destination when a fee is charged at draw time.
pub open spec fn payment_accounts(m: GumballMachine, base: nat) -> nat {
    if m.marketplace_fee_config is Some && m.version > 0 {
        base + 1
    } else {
        base
    }
}

/// Outcome of dividing a payment of `price`.
pub open spec fn split_result(m: GumballMachine, price: u64) -> Result<PaymentSplit, GumballGuardError> {
    let fee = bps_of(price as nat, draw_fee_bps(m));
    if fee > price {
        Err(GumballGuardError::NumericalOverflowError)
    } else {
        Ok(
            PaymentSplit {
                marketplace_fee: fee as u64,
                price_less_fees: (price - fee) as u64,
                revenue: price,
            },
        )
    }
}

fn split_payment(m: &GumballMachine, price: u64) -> (r: Result<PaymentSplit, GumballGuardError>)
    ensures
        r == split_result(*m, price),
{
    let bps: u16 = match m.marketplace_fee_config {
        Some(f) => if m.version == 0 {
            0
        } else {
            f.fee_bps
        },
        None => 0,
    };
    let fee = match get_bps_of(price, bps) {
        Ok(f) => f,
        Err(_) => {
            return Err(GumballGuardError::NumericalOverflowError);
        },
    };
    if fee > price {
        return Err(GumballGuardError::NumericalOverflowError);
    }
    Ok(PaymentSplit { marketplace_fee: fee, price_less_fees: price - fee, revenue: price })
}

fn count_payment_accounts(m: &GumballMachine, base: u32) -> (r: u32)
    requires
        base < 8,
    ensures
        r == payment_accounts(*m, base as nat),
{
    if m.marketplace_fee_config.is_some() && m.version > 0 {
        base + 1
    } else {
        base
    }
}

/// Guard that stops the draw at the given time until it is reached.
#[derive(Clone, Copy, Debug)]
pub struct StartDate {
    /// Unix timestamp at which drawing opens.
    pub date: i64,
}

impl StartDate {
    /// Bytes of the serialized guard.
    pub fn size() -> (r: usize)
        ensures
            r == 8,
    {
        8
    }

    /// Refuses draws before the start date.
    pub fn validate(&self, unix_timestamp: i64) -> (r: Result<(), GumballGuardError>)
        ensures
            r == if unix_timestamp < self.date {
                Err::<(), GumballGuardError>(GumballGuardError::MintNotLive)
            } else {
                Ok(())
            },
    {
        if unix_timestamp < self.date {
            return Err(GumballGuardError::MintNotLive);
        }
        Ok(())
    }

    /// True when the first draw past the start date must open the sale.
    pub fn pre_actions(&self, gumball_machine: &GumballMachine) -> (r: bool)
        ensures
            r == (gumball_machine.state != GumballState::SaleLive && gumball_machine.state
                != GumballState::SaleEnded),
    {
        gumball_machine.state != GumballState::SaleLive && gumball_machine.state
            != GumballState::SaleEnded
    }
}

/// Guard that stops drawing once a number of items was redeemed.
#[derive(Clone, Copy, Debug)]
pub struct RedeemedAmount {
    /// Most items that may be redeemed.
    pub maximum: u64,
}

impl RedeemedAmount {
    /// Bytes of the serialized guard.
    pub fn size() -> (r: usize)
        ensures
            r == 8,
    {
        8
    }

    /// Refuses draws once `items_redeemed` reached the maximum.
    pub fn validate(&self, items_redeemed: u64) -> (r: Result<(), GumballGuardError>)
        ensures
            r == if items_redeemed >= self.maximum {
                Err::<(), GumballGuardError>(GumballGuardError::MaximumRedeemedAmount)
            } else {
                Ok(())
            },
    {
        if items_redeemed >= self.maximum {
            return Err(GumballGuardError::MaximumRedeemedAmount);
        }
        Ok(())
    }
}

/// Guard that restricts drawing to holders of an NFT of a collection.
#[derive(Clone, Copy, Debug)]
pub struct NftGate {
    /// The collection the NFT must belong to.
    pub required_collection: Pubkey,
}

impl NftGate {
    /// Bytes of the serialized guard.
    pub fn size() -> (r: usize)
        ensures
            r == 32,
    {
        32
    }

    /// Checks a core asset: its update authority must be the required
    /// collection and `owner` must own it.
    pub fn verify_core_asset(
        &self,
        asset_collection: Option<Pubkey>,
        asset_owner: &Pubkey,
        owner: &Pubkey,
    ) -> (r: Result<(), GumballGuardError>)
        ensures
            r == if !(asset_collection matches Some(c) && c@ == self.required_collection@) {
                Err::<(), GumballGuardError>(GumballGuardError::InvalidNftCollection)
            } else if asset_owner@ != owner@ {
                Err(GumballGuardError::MissingNft)
            } else {
                Ok(())
            },
    {
        let in_collection = match asset_collection {
            Some(c) => cmp_pubkeys(&c, &self.required_collection),
            None => false,
        };
        if !in_collection {
            return Err(GumballGuardError::InvalidNftCollection);
        }
        if !cmp_pubkeys(asset_owner, owner) {
            return Err(GumballGuardError::MissingNft);
        }
        Ok(())
    }

    /// Checks a metadata NFT: its verified collection must be the required
    /// one and the owner's token account must hold it.
    pub fn verify_metadata_nft(
        &self,
        collection: Option<Pubkey>,
        collection_verified: bool,
        token_amount: u64,
    ) -> (r: Result<(), GumballGuardError>)
        ensures
            r == if !(collection_verified && (collection matches Some(c) && c@
                == self.required_collection@)) {
                Err::<(), GumballGuardError>(GumballGuardError::InvalidNftCollection)
            } else if token_amount < 1 {
                Err(GumballGuardError::MissingNft)
            } else {
                Ok(())
            },
    {
        let in_collection = match collection {
            Some(c) => collection_verified && cmp_pubkeys(&c, &self.required_collection),
            None => false,
        };
        if !in_collection {
            return Err(GumballGuardError::InvalidNftCollection);
        }
        if token_amount < 1 {
            return Err(GumballGuardError::MissingNft);
        }
        Ok(())
    }
}

/// Guard that charges lamports for a draw.
#[derive(Clone, Copy, Debug)]
pub struct SolPayment {
    /// Price of a draw.
    pub lamports: u64,
}

impl SolPayment {
    /// Bytes of the serialized guard.
    pub fn size() -> (r: usize)
        ensures
            r == 8,
    {
        8
    }

    /// Refuses a payer holding fewer lamports than the price.
    pub fn validate(&self, payer_lamports: u64) -> (r: Result<(), GumballGuardError>)
        ensures
            r == if payer_lamports < self.lamports {
                Err::<(), GumballGuardError>(GumballGuardError::NotEnoughSOL)
            } else {
                Ok(())
            },
    {
        if payer_lamports < self.lamports {
            return Err(GumballGuardError::NotEnoughSOL);
        }
        Ok(())
    }

    /// The machine must sell for the native currency. Returns how many
    /// guard accounts the payment uses.
    pub fn validate_gumball(&self, gumball_machine: &GumballMachine) -> (r: Result<
        u32,
        GumballGuardError,
    >)
        ensures
            r == if gumball_machine.settings.payment_mint@ != native_mint_bytes() {
                Err::<u32, GumballGuardError>(GumballGuardError::InvalidPaymentMint)
            } else {
                Ok(payment_accounts(*gumball_machine, 1) as u32)
            },
    {
        if !is_native_mint(&gumball_machine.settings.payment_mint) {
            return Err(GumballGuardError::InvalidPaymentMint);
        }
        Ok(count_payment_accounts(gumball_machine, 1))
    }

    /// Divides the price into the draw-time marketplace fee and the part
    /// for the machine's escrow.
    pub fn pre_actions_gumball(&self, gumball_machine: &GumballMachine) -> (r: Result<
        PaymentSplit,
        GumballGuardError,
    >)
        ensures
            r == split_result(*gumball_machine, self.lamports),
    {
        split_payment(gumball_machine, self.lamports)
    }
}

/// Guard that charges an amount of a token for a draw.
#[derive(Clone, Copy, Debug)]
pub struct TokenPayment {
    /// Price of a draw.
    pub amount: u64,
    /// The token charged.
    pub mint: Pubkey,
}

impl TokenPayment {
    /// Bytes of the serialized guard.
    pub fn size() -> (r: usize)
        ensures
            r == 40,
    {
        8 + 32
    }

    /// The machine must sell for this guard's token and the payer must hold
    /// at least the price. Returns how many guard accounts the payment
    /// uses: the payer's token account, the escrow's, and the fee
    /// destination when a fee is charged at draw time.
    pub fn validate_gumball(&self, gumball_machine: &GumballMachine, payer_token_amount: u64) -> (r:
        Result<u32, GumballGuardError>)
        ensures
            r == if gumball_machine.settings.payment_mint@ != self.mint@ {
                Err::<u32, GumballGuardError>(GumballGuardError::InvalidPaymentMint)
            } else if payer_token_amount < self.amount {
                Err(GumballGuardError::NotEnoughTokens)
            } else {
                Ok(payment_accounts(*gumball_machine, 2) as u32)
            },
    {
        if !cmp_pubkeys(&gumball_machine.settings.payment_mint, &self.mint) {
            return Err(GumballGuardError::InvalidPaymentMint);
        }
        if payer_token_amount < self.amount {
            return Err(GumballGuardError::NotEnoughTokens);
        }
        Ok(count_payment_accounts(gumball_machine, 2))
    }

    /// Divides the price into the draw-time marketplace fee and the part
    /// for the machine's escrow.
    pub fn pre_actions_gumball(&self, gumball_machine: &GumballMachine) -> (r: Result<
        PaymentSplit,
        GumballGuardError,
    >)
        ensures
            r == split_result(*gumball_machine, self.amount),
    {
        split_payment(gumball_machine, self.amount)
    }
}

/// Guard that charges an amount of a Token-2022 token for a draw.
#[derive(Clone, Copy, Debug)]
pub struct Token2022Payment {
    /// Price of a draw.
    pub amount: u64,
    /// The token charged.
    pub mint: Pubkey,
    /// The token account that receives the payment.
    pub destination_ata: Pubkey,
}

impl Token2022Payment {
    /// Bytes of the serialized guard.
    pub fn size() -> (r: usize)
        ensures
            r == 72,
    {
        8 + 32 + 32
    }

    /// The machine must sell for this guard's token, the destination must
    /// be the configured one, and the payer must hold at least the price.
    /// Returns how many guard accounts the payment uses.
    pub fn validate_gumball(
        &self,
        gumball_machine: &GumballMachine,
        destination_ata: &Pubkey,
        payer_token_amount: u64,
    ) -> (r: Result<u32, GumballGuardError>)
        ensures
            r == if gumball_machine.settings.payment_mint@ != self.mint@ {
                Err::<u32, GumballGuardError>(GumballGuardError::InvalidPaymentMint)
            } else if destination_ata@ != self.destination_ata@ {
                Err(GumballGuardError::InvalidPaymentMint)
            } else if payer_token_amount < self.amount {
                Err(GumballGuardError::NotEnoughTokens)
            } else {
                Ok(payment_accounts(*gumball_machine, 3) as u32)
            },
    {
        if !cmp_pubkeys(&gumball_machine.settings.payment_mint, &self.mint) {
            return Err(GumballGuardError::InvalidPaymentMint);
        }
        if !cmp_pubkeys(destination_ata, &self.destination_ata) {
            return Err(GumballGuardError::InvalidPaymentMint);
        }
        if payer_token_amount < self.amount {
            return Err(GumballGuardError::NotEnoughTokens);
        }
        Ok(count_payment_accounts(gumball_machine, 3))
    }

    /// Divides the price into the draw-time marketplace fee and the part
    /// for the machine's escrow.
    pub fn pre_actions_gumball(&self, gumball_machine: &GumballMachine) -> (r: Result<
        PaymentSplit,
        GumballGuardError,
    >)
        ensures
            r == split_result(*gumball_machine, self.amount),
    {
        split_payment(gumball_machine, self.amount)
    }
}

} // verus!
