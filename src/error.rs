//! Errors returned by the ledger operations.

use vstd::prelude::*;

verus! {

/// Why a machine operation was rejected. Every rejected operation leaves the
/// machine and its data as they were.
#[derive(Debug, Clone, Copy, PartialEq, Eq, Structural)]
pub enum GumballError {
    /// A checked addition, subtraction, multiplication or division failed.
    NumericalOverflowError,
    /// An index lies at or beyond the number of loaded items or the capacity.
    IndexGreaterThanLength,
    /// The operation needs a newer schema version.
    InvalidVersion,
    /// Items can only be re-added (with an index) while the sale is live.
    MissingItemIndex,
    /// A re-added slot was not claimed.
    ItemNotClaimed,
    /// A re-added slot was not settled.
    ItemNotSettled,
    /// The sale state does not allow the operation.
    InvalidState,
    /// An empty index list or an inverted span.
    InvalidInputLength,
    /// The same index appears twice in one removal.
    DuplicateIndex,
    /// The caller is neither the machine authority nor the item's seller.
    InvalidAuthority,
    /// The expected seller does not match the item.
    InvalidSeller,
    /// The expected mint does not match the item.
    InvalidMint,
    /// The expected amount does not match the item.
    InvalidAmount,
    /// The expected buyer does not match the item.
    InvalidBuyer,
    /// The expected token kind does not match the item.
    InvalidTokenStandard,
    /// Every loaded item has been drawn.
    GumballMachineEmpty,
    /// The machine holds fewer items than were finalized for the sale.
    NotFullyLoaded,
    /// The item has already been claimed.
    ItemAlreadyClaimed,
    /// The item has already been settled.
    ItemAlreadySettled,
    /// Not enough buy-back funds.
    InsufficientFunds,
    /// Buy-back is not enabled on this machine.
    BuyBackNotEnabled,
    /// The co-signer is not the configured oracle.
    InvalidOracleSigner,
    /// Too few items remain unsold for a buy-back.
    BuyBackCutoffReached,
    /// Buying items back into the machine itself is not supported.
    NotImplemented,
    /// The payment mint does not match the machine's payment currency.
    InvalidPaymentMint,
    /// The seller would exceed the per-seller item limit.
    SellerTooManyItems,
    /// The seller is not on the allow-list.
    InvalidProofPath,
    /// The machine authority cannot request to add items.
    SellerCannotBeAuthority,
    /// The settings change is not allowed in the current state.
    InvalidSettingUpdate,
    /// Items remain unsettled.
    NotAllSettled,
    /// Stored bytes do not decode.
    InvalidAccountData,
}

} // verus!
