use mallow_gumball::guards::{
    GumballGuardError, NftGate, PaymentSplit, RedeemedAmount, SolPayment, StartDate,
    Token2022Payment, TokenPayment,
};
use mallow_gumball::pubkey::Pubkey;
use mallow_gumball::state::{FeeConfig, GumballMachine, GumballSettings, GumballState};

const SOL_MINT: [u8; 32] = [
    6, 155, 136, 87, 254, 171, 129, 132, 251, 104, 127, 99, 70, 24, 192, 53, 218, 196, 57, 220,
    26, 235, 59, 85, 152, 160, 240, 0, 0, 0, 0, 1,
];

fn guard_key(b: u8) -> Pubkey {
    Pubkey::new_from_array([b; 32])
}

fn guarded_machine(version: u8, fee_bps: Option<u16>, payment_mint: Pubkey) -> GumballMachine {
    GumballMachine {
        version,
        authority: guard_key(1),
        mint_authority: guard_key(2),
        marketplace_fee_config: fee_bps.map(|fee_bps| FeeConfig { fee_account: guard_key(5), fee_bps }),
        items_redeemed: 0,
        items_settled: 0,
        total_revenue: 0,
        state: GumballState::NotStarted,
        settings: GumballSettings {
            uri: String::new(),
            item_capacity: 10,
            items_per_seller: 10,
            sellers_merkle_root: None,
            curator_fee_bps: 0,
            hide_sold_items: false,
            payment_mint,
        },
        finalized_items_count: 0,
    }
}

#[test]
fn token_payment_checks_mint_and_balance() {
    let guard = TokenPayment { amount: 100, mint: guard_key(8) };
    let m = guarded_machine(5, None, guard_key(8));
    assert_eq!(guard.validate_gumball(&m, 100), Ok(2));
    assert_eq!(guard.validate_gumball(&m, 99), Err(GumballGuardError::NotEnoughTokens));
    let with_fee = guarded_machine(5, Some(250), guard_key(8));
    assert_eq!(guard.validate_gumball(&with_fee, 100), Ok(3));
    let other = guarded_machine(5, None, guard_key(9));
    assert_eq!(guard.validate_gumball(&other, 100), Err(GumballGuardError::InvalidPaymentMint));
    assert_eq!(TokenPayment::size(), 40);
}

#[test]
fn token_payment_takes_the_fee_at_draw_time() {
    let guard = TokenPayment { amount: 1000, mint: guard_key(8) };
    let m = guarded_machine(5, Some(250), guard_key(8));
    assert_eq!(
        guard.pre_actions_gumball(&m),
        Ok(PaymentSplit { marketplace_fee: 25, price_less_fees: 975, revenue: 1000 })
    );
    let v0 = guarded_machine(0, Some(250), guard_key(8));
    assert_eq!(
        guard.pre_actions_gumball(&v0),
        Ok(PaymentSplit { marketplace_fee: 0, price_less_fees: 1000, revenue: 1000 })
    );
    let big_fee = guarded_machine(5, Some(20000), guard_key(8));
    assert_eq!(guard.pre_actions_gumball(&big_fee), Err(GumballGuardError::NumericalOverflowError));
}

#[test]
fn sol_payment_needs_native_currency() {
    let guard = SolPayment { lamports: 500 };
    assert_eq!(guard.validate(499), Err(GumballGuardError::NotEnoughSOL));
    assert_eq!(guard.validate(500), Ok(()));
    let native = guarded_machine(5, Some(100), Pubkey::new_from_array(SOL_MINT));
    assert_eq!(guard.validate_gumball(&native), Ok(2));
    let token = guarded_machine(5, None, guard_key(8));
    assert_eq!(guard.validate_gumball(&token), Err(GumballGuardError::InvalidPaymentMint));
    assert_eq!(
        guard.pre_actions_gumball(&native),
        Ok(PaymentSplit { marketplace_fee: 5, price_less_fees: 495, revenue: 500 })
    );
    assert_eq!(SolPayment::size(), 8);
}

#[test]
fn token2022_payment_checks_destination() {
    let guard = Token2022Payment { amount: 10, mint: guard_key(8), destination_ata: guard_key(6) };
    let m = guarded_machine(5, Some(100), guard_key(8));
    assert_eq!(guard.validate_gumball(&m, &guard_key(6), 10), Ok(4));
    assert_eq!(guard.validate_gumball(&m, &guard_key(7), 10), Err(GumballGuardError::InvalidPaymentMint));
    assert_eq!(guard.validate_gumball(&m, &guard_key(6), 9), Err(GumballGuardError::NotEnoughTokens));
    assert_eq!(
        guard.pre_actions_gumball(&m),
        Ok(PaymentSplit { marketplace_fee: 0, price_less_fees: 10, revenue: 10 })
    );
    assert_eq!(Token2022Payment::size(), 72);
}

#[test]
fn start_date_and_redeemed_amount() {
    let start = StartDate { date: 1_700_000_000 };
    assert_eq!(start.validate(1_699_999_999), Err(GumballGuardError::MintNotLive));
    assert_eq!(start.validate(1_700_000_000), Ok(()));
    let mut m = guarded_machine(5, None, guard_key(8));
    assert!(start.pre_actions(&m));
    m.state = GumballState::SaleLive;
    assert!(!start.pre_actions(&m));
    let limit = RedeemedAmount { maximum: 3 };
    assert_eq!(limit.validate(2), Ok(()));
    assert_eq!(limit.validate(3), Err(GumballGuardError::MaximumRedeemedAmount));
    assert_eq!(StartDate::size(), 8);
    assert_eq!(RedeemedAmount::size(), 8);
}

#[test]
fn nft_gate_checks_collection_and_holding() {
    let gate = NftGate { required_collection: guard_key(30) };
    let buyer = guard_key(31);
    assert_eq!(gate.verify_core_asset(Some(guard_key(30)), &buyer, &buyer), Ok(()));
    assert_eq!(
        gate.verify_core_asset(Some(guard_key(29)), &buyer, &buyer),
        Err(GumballGuardError::InvalidNftCollection)
    );
    assert_eq!(
        gate.verify_core_asset(Some(guard_key(30)), &guard_key(32), &buyer),
        Err(GumballGuardError::MissingNft)
    );
    assert_eq!(gate.verify_metadata_nft(Some(guard_key(30)), true, 1), Ok(()));
    assert_eq!(
        gate.verify_metadata_nft(Some(guard_key(30)), false, 1),
        Err(GumballGuardError::InvalidNftCollection)
    );
    assert_eq!(gate.verify_metadata_nft(Some(guard_key(30)), true, 0), Err(GumballGuardError::MissingNft));
    assert_eq!(NftGate::size(), 32);
}
