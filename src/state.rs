//! The machine header and the records stored in its data.

use vstd::prelude::*;

use crate::pubkey::Pubkey;

verus! {

/// The schema version that new machines are created with.
pub const CURRENT_VERSION: u8 = 5;

/// Marketplace fee taken on sales.
#[derive(Clone, Copy, Debug)]
pub struct FeeConfig {
    /// Where fees go.
    pub fee_account: Pubkey,
    /// Fee in basis points of the sale price.
    pub fee_bps: u16,
}

/// Settings of the buy-back sub-ledger.
#[derive(Clone, Copy, Debug)]
pub struct BuyBackConfig {
    /// Whether buying back prizes is enabled.
    pub enabled: bool,
    /// Whether bought-back prizes return to the machine.
    pub to_gumball_machine: bool,
    /// The signer who must co-sign every buy-back.
    pub oracle_signer: Pubkey,
    /// Percentage of prize value paid on a buy-back.
    pub value_pct: u8,
    /// Marketplace fee on a buy-back, in basis points.
    pub marketplace_fee_bps: u16,
    /// Buy-back is refused once the unsold percentage is at or below this.
    pub cutoff_pct: u8,
}

/// Kind of asset an item holds.
#[derive(Clone, Copy, Debug, PartialEq, Eq, Structural)]
pub enum TokenStandard {
    NonFungible,
    Core,
    Fungible,
    ProgrammableNonFungible,
}

/// The byte that stores a token kind.
pub open spec fn standard_byte(t: TokenStandard) -> u8 {
    match t {
        TokenStandard::NonFungible => 0,
        TokenStandard::Core => 1,
        TokenStandard::Fungible => 2,
        TokenStandard::ProgrammableNonFungible => 3,
    }
}

impl TokenStandard {
    /// The byte that stores this token kind.
    pub fn to_byte(&self) -> (r: u8)
        ensures
            r == standard_byte(*self),
    {
        match self {
            TokenStandard::NonFungible => 0,
            TokenStandard::Core => 1,
            TokenStandard::Fungible => 2,
            TokenStandard::ProgrammableNonFungible => 3,
        }
    }
}

/// Sale state of a machine.
#[derive(Clone, Copy, Debug, PartialEq, Eq, Structural)]
pub enum GumballState {
    /// Intake open, no allow-list yet.
    NotStarted,
    /// Sellers were invited; intake still open.
    DetailsFinalized,
    /// Drawing enabled.
    SaleLive,
    /// Drawing closed; settlement enabled.
    SaleEnded,
}

/// User-defined settings.
#[derive(Clone, Debug)]
pub struct GumballSettings {
    /// Uri of off-chain metadata.
    pub uri: String,
    /// Number of items that can be added.
    pub item_capacity: u64,
    /// Max number of items that a single seller can add.
    pub items_per_seller: u16,
    /// Merkle root of the sellers allowed to add items.
    pub sellers_merkle_root: Option<[u8; 32]>,
    /// Fee paid to the machine authority, in basis points.
    pub curator_fee_bps: u16,
    /// True if front ends should hide sold items.
    pub hide_sold_items: bool,
    /// Payment currency of the sale.
    pub payment_mint: Pubkey,
}

/// Item record as given by a depositor.
#[derive(Clone, Copy, Debug)]
pub struct ConfigLineInput {
    /// Mint account of the asset.
    pub mint: Pubkey,
    /// Wallet that submitted the asset for sale.
    pub seller: Pubkey,
}

/// Item record with a quantity, as given by a depositor.
#[derive(Clone, Copy, Debug)]
pub struct ConfigLineV2Input {
    /// Mint account of the asset.
    pub mint: Pubkey,
    /// Wallet that submitted the asset for sale.
    pub seller: Pubkey,
    /// Amount of the asset.
    pub amount: u64,
}

/// A stored item record.
#[derive(Clone, Copy, Debug)]
pub struct ConfigLine {
    /// Mint account of the asset.
    pub mint: Pubkey,
    /// Wallet that submitted the asset for sale.
    pub seller: Pubkey,
    /// Wallet that receives the asset; all zero until drawn.
    pub buyer: Pubkey,
    /// Token kind.
    pub token_standard: TokenStandard,
}

/// A stored item record with a quantity.
#[derive(Clone, Copy, Debug)]
pub struct ConfigLineV2 {
    /// Mint account of the asset.
    pub mint: Pubkey,
    /// Wallet that submitted the asset for sale.
    pub seller: Pubkey,
    /// Wallet that receives the asset; all zero until drawn.
    pub buyer: Pubkey,
    /// Token kind.
    pub token_standard: TokenStandard,
    /// Amount of the asset.
    pub amount: u64,
}

/// The machine header. The item ledger lives in the account data that
/// follows the header; see the layout module for its shape.
#[derive(Clone, Debug)]
pub struct GumballMachine {
    /// Schema version of the account.
    pub version: u8,
    /// Authority address.
    pub authority: Pubkey,
    /// Address allowed to draw.
    pub mint_authority: Pubkey,
    /// Fee config of the marketplace the machine is listed on.
    pub marketplace_fee_config: Option<FeeConfig>,
    /// Number of items drawn.
    pub items_redeemed: u64,
    /// Number of items settled.
    pub items_settled: u64,
    /// Amount received from purchases.
    pub total_revenue: u64,
    /// Sale state.
    pub state: GumballState,
    /// User settings.
    pub settings: GumballSettings,
    /// Number of items loaded when the sale started.
    pub finalized_items_count: u64,
}

impl GumballMachine {
    /// True when an allow-list of sellers is configured.
    pub open spec fn spec_is_collab(&self) -> bool {
        self.settings.sellers_merkle_root is Some
    }

    pub open spec fn spec_is_before_sale(&self) -> bool {
        self.state == GumballState::NotStarted || self.state == GumballState::DetailsFinalized
    }

    pub open spec fn spec_can_edit_items(&self) -> bool {
        self.spec_is_before_sale() || (self.state == GumballState::SaleLive
            && !self.spec_is_collab() && self.version >= 5)
    }

    pub open spec fn spec_can_add_items(&self) -> bool {
        self.spec_can_edit_items()
    }

    pub open spec fn spec_can_settle_items(&self) -> bool {
        self.state == GumballState::SaleEnded || (self.state == GumballState::SaleLive
            && !self.spec_is_collab() && self.version >= 5)
    }

    /// True when an allow-list of sellers is configured.
    pub fn is_collab(&self) -> (r: bool)
        ensures
            r == self.spec_is_collab(),
    {
        self.settings.sellers_merkle_root.is_some()
    }

    /// True before the sale starts: the set of loaded items may still
    /// change shape, so removals and opening the sale are allowed.
    pub fn is_before_sale(&self) -> (r: bool)
        ensures
            r == self.spec_is_before_sale(),
    {
        self.state == GumballState::NotStarted || self.state == GumballState::DetailsFinalized
    }

    /// Items can be edited before the sale starts, and from schema version 5
    /// also during a live sale without an allow-list.
    pub fn can_edit_items(&self) -> (r: bool)
        ensures
            r == self.spec_can_edit_items(),
    {
        self.is_before_sale() || (self.state == GumballState::SaleLive && !self.is_collab()
            && self.version >= 5)
    }

    /// Items can be added whenever they can be edited.
    pub fn can_add_items(&self) -> (r: bool)
        ensures
            r == self.spec_can_add_items(),
    {
        self.can_edit_items()
    }

    /// Settlement is open once the sale ended, and from schema version 5
    /// during a live sale without an allow-list.
    pub fn can_settle_items(&self) -> (r: bool)
        ensures
            r == self.spec_can_settle_items(),
    {
        self.state == GumballState::SaleEnded || (self.state == GumballState::SaleLive
            && !self.is_collab() && self.version >= 5)
    }
}

} // verus!
