//! Settings changes, add-item requests and closing a machine.

use vstd::prelude::*;

use crate::buy_back::{
    buy_back_bytes, config_fields, decode_buy_back, encode_buy_back, lemma_buy_back_round_trip,
};
use crate::bytes::{spliced, write_bytes};
use crate::error::GumballError;
use crate::layout::buy_back_config_pos;
use crate::ledger::{count_of, get_config_count};
use crate::pubkey::Pubkey;
use crate::state::{
    BuyBackConfig, GumballMachine, GumballSettings, GumballState, TokenStandard,
};

verus! {

/// Outcome of `update_settings`.
pub open spec fn update_check(
    m: GumballMachine,
    d: Seq<u8>,
    settings: GumballSettings,
    changes_buy_back: bool,
) -> Result<(), GumballError> {
    if settings.item_capacity != m.settings.item_capacity {
        Err(GumballError::InvalidSettingUpdate)
    } else if m.items_redeemed > 0 && changes_buy_back {
        Err(GumballError::InvalidState)
    } else if changes_buy_back && m.version < 4 {
        Err(GumballError::InvalidVersion)
    } else if (m.state != GumballState::NotStarted || count_of(d) > 0) && (settings.items_per_seller
        < m.settings.items_per_seller || settings.curator_fee_bps > m.settings.curator_fee_bps || (
    m.settings.sellers_merkle_root is Some && settings.hide_sold_items
        != m.settings.hide_sold_items)) {
        Err(GumballError::InvalidSettingUpdate)
    } else {
        Ok(())
    }
}

/// Replaces the machine's settings and, before the first draw, its
/// buy-back config. The capacity never changes; once the machine has items
/// or left its initial state, the per-seller cap can only grow, the curator
/// fee only shrink, and an invited machine keeps its hide-sold-items flag.
/// Setting an allow-list finalizes the details.
pub fn update_settings(
    gumball_machine: &mut GumballMachine,
    data: &mut Vec<u8>,
    settings: GumballSettings,
    buy_back_config: Option<BuyBackConfig>,
) -> (r: Result<(), GumballError>)
    requires
        old(gumball_machine).layout_ok(old(data)@),
    ensures
        r == update_check(*old(gumball_machine), old(data)@, settings, buy_back_config is Some),
        r is Err ==> *final(gumball_machine) == *old(gumball_machine) && final(data)@ == old(
            data,
        )@,
        r is Ok ==> *final(gumball_machine) == (GumballMachine {
            settings: settings,
            state: if settings.sellers_merkle_root is Some {
                GumballState::DetailsFinalized
            } else {
                old(gumball_machine).state
            },
            ..*old(gumball_machine)
        }),
        r is Ok && buy_back_config is None ==> final(data)@ == old(data)@,
        r is Ok && buy_back_config is Some ==> final(data)@ == spliced(
            old(data)@,
            buy_back_config_pos(old(gumball_machine).cap(), old(gumball_machine).version) as int,
            buy_back_bytes(buy_back_config->0),
        ) && decode_buy_back(
            final(data)@,
            buy_back_config_pos(old(gumball_machine).cap(), old(gumball_machine).version) as int,
        ) == Some(config_fields(buy_back_config->0)),
{
    let items_loaded = get_config_count(data);
    if settings.item_capacity != gumball_machine.settings.item_capacity {
        return Err(GumballError::InvalidSettingUpdate);
    }
    let changes_buy_back = buy_back_config.is_some();
    if gumball_machine.items_redeemed > 0 && changes_buy_back {
        return Err(GumballError::InvalidState);
    }
    if changes_buy_back && gumball_machine.version < 4 {
        return Err(GumballError::InvalidVersion);
    }
    if gumball_machine.state != GumballState::NotStarted || items_loaded > 0 {
        if settings.items_per_seller < gumball_machine.settings.items_per_seller {
            return Err(GumballError::InvalidSettingUpdate);
        }
        if settings.curator_fee_bps > gumball_machine.settings.curator_fee_bps {
            return Err(GumballError::InvalidSettingUpdate);
        }
        if gumball_machine.settings.sellers_merkle_root.is_some() && settings.hide_sold_items
            != gumball_machine.settings.hide_sold_items {
            return Err(GumballError::InvalidSettingUpdate);
        }
    }
    match buy_back_config {
        Some(c) => {
            let p = match gumball_machine.get_buy_back_config_position() {
                Ok(p) => p,
                Err(_) => 0,
            };
            let bytes = encode_buy_back(&c);
            write_bytes(data, p, &bytes);
            proof {
                crate::bytes::lemma_range_in_splice(old(data)@, p as int, bytes@);
                lemma_buy_back_round_trip(data@, p as int, c);
            }
        },
        None => {},
    }
    let finalized = settings.sellers_merkle_root.is_some();
    gumball_machine.settings = settings;
    if finalized {
        gumball_machine.state = GumballState::DetailsFinalized;
    }
    Ok(())
}

/// A machine can be closed when it holds no items or every item is
/// settled.
pub fn check_can_close(gumball_machine: &GumballMachine, data: &Vec<u8>) -> (r: Result<
    (),
    GumballError,
>)
    requires
        gumball_machine.layout_ok(data@),
    ensures
        r == if count_of(data@) == 0 || count_of(data@) == gumball_machine.items_settled {
            Ok::<(), GumballError>(())
        } else {
            Err(GumballError::NotAllSettled)
        },
{
    let config_count = get_config_count(data) as u64;
    if config_count == 0 {
        return Ok(());
    }
    if config_count != gumball_machine.items_settled {
        return Err(GumballError::NotAllSettled);
    }
    Ok(())
}

/// A request by a third party to add an item, pending the authority's
/// approval.
#[derive(Clone, Copy, Debug)]
pub struct AddItemRequest {
    /// The machine.
    pub gumball_machine: Pubkey,
    /// The requesting seller.
    pub seller: Pubkey,
    /// The asset offered.
    pub asset: Pubkey,
    /// Kind of the asset.
    pub token_standard: TokenStandard,
}

impl AddItemRequest {
    /// Bytes of the stored request: discriminator, three addresses and the
    /// token kind.
    pub const SPACE: usize = 8 + 32 + 32 + 32 + 1;

    /// Fills in a new request.
    pub fn init(
        &mut self,
        gumball_machine: Pubkey,
        seller: Pubkey,
        asset: Pubkey,
        token_standard: TokenStandard,
    ) -> (r: Result<(), GumballError>)
        ensures
            r is Ok,
            final(self).gumball_machine == gumball_machine,
            final(self).seller == seller,
            final(self).asset == asset,
            final(self).token_standard == token_standard,
    {
        self.gumball_machine = gumball_machine;
        self.seller = seller;
        self.asset = asset;
        self.token_standard = token_standard;
        Ok(())
    }
}

} // verus!
