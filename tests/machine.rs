use mallow_gumball::admin::{check_can_close, update_settings, AddItemRequest};
use mallow_gumball::bitmask::get_bit_byte_info;
use mallow_gumball::buy_back::{manage_buy_back_funds, sell_item};
use mallow_gumball::draw::{draw_seed, end_sale, increment_total_revenue, process_draw, start_sale};
use mallow_gumball::error::GumballError;
use mallow_gumball::layout::{
    config_line_size, CONFIG_LINE_SIZE, CONFIG_LINE_V2_SIZE, GUMBALL_MACHINE_SIZE,
};
use mallow_gumball::ledger::{
    add_item, assert_config_line, get_config_count, remove_item, remove_multiple_items,
    remove_multiple_items_span,
};
use mallow_gumball::pubkey::{cmp_pubkeys, is_native_mint, Pubkey};
use mallow_gumball::sellers::{assert_can_add_item, assert_can_request_add_item, verify_proof};
use mallow_gumball::settlement::{
    claim_item, claim_tokens, get_bps_of, get_total_proceeds, is_item_claimed, pay_creator_royalties,
    settle_item, settle_span, transfer_proceeds, Creator, CreatorBalances, RoyaltyInfo,
    SellerHistory,
};
use mallow_gumball::state::{
    BuyBackConfig, ConfigLine, ConfigLineV2Input, FeeConfig, GumballMachine, GumballSettings,
    GumballState, TokenStandard,
};

const NATIVE_MINT: [u8; 32] = [
    6, 155, 136, 87, 254, 171, 129, 132, 251, 104, 127, 99, 70, 24, 192, 53, 218, 196, 57, 220,
    26, 235, 59, 85, 152, 160, 240, 0, 0, 0, 0, 1,
];

fn key(b: u8) -> Pubkey {
    Pubkey::new_from_array([b; 32])
}

fn new_machine(cap: u64, version: u8) -> (GumballMachine, Vec<u8>) {
    let m = GumballMachine {
        version,
        authority: key(1),
        mint_authority: key(2),
        marketplace_fee_config: None,
        items_redeemed: 0,
        items_settled: 0,
        total_revenue: 0,
        state: GumballState::NotStarted,
        settings: GumballSettings {
            uri: String::from("https://example.com/machine.json"),
            item_capacity: cap,
            items_per_seller: 100,
            sellers_merkle_root: None,
            curator_fee_bps: 0,
            hide_sold_items: false,
            payment_mint: Pubkey::new_from_array(NATIVE_MINT),
        },
        finalized_items_count: 0,
    };
    let size = GumballMachine::get_size(cap, version).unwrap();
    (m, vec![0u8; size])
}

fn item(mint: u8, seller: u8, amount: u64) -> ConfigLineV2Input {
    ConfigLineV2Input { mint: key(mint), seller: key(seller), amount }
}

fn line_start(m: &GumballMachine, i: usize) -> usize {
    GUMBALL_MACHINE_SIZE + 4 + i * config_line_size(m.version)
}

fn line_bytes(m: &GumballMachine, data: &Vec<u8>, i: usize) -> Vec<u8> {
    let p = line_start(m, i);
    data[p..p + config_line_size(m.version)].to_vec()
}

fn buyer_bytes(m: &GumballMachine, data: &Vec<u8>, i: usize) -> Vec<u8> {
    let p = line_start(m, i) + 64;
    data[p..p + 32].to_vec()
}

fn mint_index(m: &GumballMachine, data: &Vec<u8>, k: usize) -> u32 {
    let p = m.get_mint_indices_position().unwrap() + 4 * k;
    u32::from_le_bytes([data[p], data[p + 1], data[p + 2], data[p + 3]])
}

fn bit(data: &Vec<u8>, base: usize, i: usize) -> bool {
    let (byte, _, mask) = get_bit_byte_info(base, i).unwrap();
    data[byte] & mask == mask
}

fn is_settled(m: &GumballMachine, data: &Vec<u8>, i: usize) -> bool {
    bit(data, m.get_settled_items_bit_mask_position().unwrap(), i)
}

fn is_claimed_bit(m: &GumballMachine, data: &Vec<u8>, i: usize) -> bool {
    bit(data, m.get_claimed_items_bit_mask_position().unwrap(), i)
}

fn tail_is_zero(m: &GumballMachine, data: &Vec<u8>) -> bool {
    let count = get_config_count(data);
    let end = m.get_claimed_items_bit_mask_position().unwrap();
    data[line_start(m, count)..end].iter().all(|b| *b == 0)
}

fn load(m: &mut GumballMachine, data: &mut Vec<u8>, n: u8) {
    for i in 0..n {
        add_item(m, data, &item(10 + i, 50, 1), TokenStandard::NonFungible, 1, None).unwrap();
    }
}

fn history(count: u64) -> SellerHistory {
    SellerHistory { gumball_machine: key(3), seller: key(50), item_count: count }
}

fn no_balances() -> CreatorBalances {
    CreatorBalances { lamports: vec![], minimum_balance: 0, is_native: false }
}

fn balances(lamports: Vec<u64>, minimum_balance: u64, is_native: bool) -> CreatorBalances {
    CreatorBalances { lamports, minimum_balance, is_native }
}

fn no_royalties() -> RoyaltyInfo {
    RoyaltyInfo { is_primary_sale: false, seller_fee_basis_points: 0, creators: None }
}

#[test]
fn layout_offsets_follow_the_capacity_and_version() {
    assert_eq!(CONFIG_LINE_SIZE, 97);
    assert_eq!(CONFIG_LINE_V2_SIZE, 105);
    let (m, _) = new_machine(10, 5);
    let claimed = GUMBALL_MACHINE_SIZE + 4 + 10 * 105;
    assert_eq!(m.get_claimed_items_bit_mask_position(), Ok(claimed));
    assert_eq!(m.get_settled_items_bit_mask_position(), Ok(claimed + 3));
    assert_eq!(m.get_mint_indices_position(), Ok(claimed + 6));
    assert_eq!(m.get_disable_royalties_position(), Ok(claimed + 6 + 40));
    assert_eq!(m.get_disable_primary_split_position(), Ok(claimed + 50));
    assert_eq!(m.get_buy_back_config_position(), Ok(claimed + 51));
    assert_eq!(m.get_buy_back_funds_available_position(), Ok(claimed + 89));
    assert_eq!(m.get_total_proceeds_settled_position(), Ok(claimed + 97));
    assert_eq!(GumballMachine::get_size(10, 5), Ok(claimed + 105));
    assert_eq!(GumballMachine::get_size(10, 1), Ok(GUMBALL_MACHINE_SIZE + 4 + 970 + 6 + 40));
    assert_eq!(GumballMachine::get_size(10, 3), Ok(GUMBALL_MACHINE_SIZE + 4 + 1050 + 6 + 40 + 5));
    assert_eq!(GumballMachine::get_size(u64::MAX, 5), Err(GumballError::NumericalOverflowError));
}

#[test]
fn bit_info_is_most_significant_first() {
    assert_eq!(get_bit_byte_info(100, 0), Ok((100, 7, 128)));
    assert_eq!(get_bit_byte_info(100, 9), Ok((101, 6, 64)));
    assert_eq!(get_bit_byte_info(100, 15), Ok((101, 0, 1)));
    assert_eq!(get_bit_byte_info(usize::MAX, 8), Err(GumballError::NumericalOverflowError));
}

#[test]
fn bps_of_rounds_down() {
    assert_eq!(get_bps_of(1000, 500), Ok(50));
    assert_eq!(get_bps_of(999, 1), Ok(0));
    assert_eq!(get_bps_of(0, 500), Ok(0));
    assert_eq!(get_bps_of(u64::MAX, 10000), Ok(u64::MAX));
    assert_eq!(get_bps_of(u64::MAX, 20000), Err(GumballError::NumericalOverflowError));
}

#[test]
fn keys_compare_by_bytes() {
    assert!(cmp_pubkeys(&key(7), &key(7)));
    assert!(!cmp_pubkeys(&key(7), &key(8)));
    assert!(is_native_mint(&Pubkey::new_from_array(NATIVE_MINT)));
    assert!(!is_native_mint(&key(7)));
}

#[test]
fn append_writes_records_and_permutation() {
    let (mut m, mut data) = new_machine(5, 5);
    add_item(&mut m, &mut data, &item(10, 50, 7), TokenStandard::Fungible, 3, None).unwrap();
    assert_eq!(get_config_count(&data), 3);
    for i in 0..3 {
        let line = line_bytes(&m, &data, i);
        assert_eq!(&line[0..32], &[10u8; 32]);
        assert_eq!(&line[32..64], &[50u8; 32]);
        assert_eq!(&line[64..96], &[0u8; 32]);
        assert_eq!(line[96], 2);
        assert_eq!(&line[97..105], &7u64.to_le_bytes());
        assert_eq!(mint_index(&m, &data, i), i as u32);
    }
    assert!(tail_is_zero(&m, &data));
    let res = add_item(&mut m, &mut data, &item(11, 50, 1), TokenStandard::Core, 3, None);
    assert_eq!(res, Err(GumballError::IndexGreaterThanLength));
    assert_eq!(get_config_count(&data), 3);
}

#[test]
fn full_sale_draws_every_item() {
    let (mut m, mut data) = new_machine(10, 5);
    load(&mut m, &mut data, 10);
    assert_eq!(get_config_count(&data), 10);
    start_sale(&mut m, &data).unwrap();
    assert_eq!(m.state, GumballState::SaleLive);
    assert_eq!(m.finalized_items_count, 10);
    let mut drawn = Vec::new();
    for draw in 0..10u64 {
        assert_eq!(m.state, GumballState::SaleLive);
        let seed = 1_000_003 * draw + 17;
        let index = process_draw(&mut m, &mut data, &key(200 + draw as u8), seed).unwrap();
        drawn.push(index);
    }
    assert_eq!(m.items_redeemed, 10);
    assert_eq!(m.state, GumballState::SaleEnded);
    assert_eq!(m.finalized_items_count - m.items_redeemed, 0);
    drawn.sort();
    assert_eq!(drawn, (0..10).collect::<Vec<u32>>());
    for i in 0..10 {
        assert_ne!(buyer_bytes(&m, &data, i), vec![0u8; 32]);
    }
}

#[test]
fn draw_resolves_through_the_permutation() {
    let (mut m, mut data) = new_machine(4, 5);
    load(&mut m, &mut data, 4);
    start_sale(&mut m, &data).unwrap();
    // seed 5 picks permutation slot 5 % 4 = 1, which holds line 1
    assert_eq!(process_draw(&mut m, &mut data, &key(9), 5), Ok(1));
    assert_eq!(buyer_bytes(&m, &data, 1), vec![9u8; 32]);
    assert_eq!(mint_index(&m, &data, 1), 3);
    // three remain: slot 1 now holds line 3
    assert_eq!(process_draw(&mut m, &mut data, &key(9), 4), Ok(3));
}

#[test]
fn permutation_prefix_tracks_undrawn_items() {
    let (mut m, mut data) = new_machine(6, 5);
    load(&mut m, &mut data, 6);
    start_sale(&mut m, &data).unwrap();
    for seed in [3u64, 11, 2] {
        process_draw(&mut m, &mut data, &key(77), seed).unwrap();
        let live = (m.finalized_items_count - m.items_redeemed) as usize;
        let mut prefix: Vec<u32> = (0..live).map(|k| mint_index(&m, &data, k)).collect();
        prefix.sort();
        let mut undrawn: Vec<u32> = (0..6)
            .filter(|i| buyer_bytes(&m, &data, *i) == vec![0u8; 32])
            .map(|i| i as u32)
            .collect();
        undrawn.sort();
        assert_eq!(prefix, undrawn);
    }
}

#[test]
fn remove_swaps_in_the_last_line() {
    let (mut m, mut data) = new_machine(5, 5);
    load(&mut m, &mut data, 3);
    let last = line_bytes(&m, &data, 2);
    remove_item(&m, &mut data, &key(1), 1, &key(11), &key(50), 1).unwrap();
    assert_eq!(get_config_count(&data), 2);
    assert_eq!(line_bytes(&m, &data, 1), last);
    assert_eq!(line_bytes(&m, &data, 2), vec![0u8; 105]);
    assert_eq!(mint_index(&m, &data, 2), 0);
    assert!(tail_is_zero(&m, &data));
}

#[test]
fn remove_from_a_full_machine_moves_slot_four() {
    let (mut m, mut data) = new_machine(5, 5);
    load(&mut m, &mut data, 5);
    let last = line_bytes(&m, &data, 4);
    remove_item(&m, &mut data, &key(50), 1, &key(11), &key(50), 1).unwrap();
    assert_eq!(get_config_count(&data), 4);
    assert_eq!(line_bytes(&m, &data, 1), last);
    assert_eq!(line_bytes(&m, &data, 4), vec![0u8; 105]);
    assert_eq!(mint_index(&m, &data, 4), 0);
}

#[test]
fn remove_checks_caller_and_record() {
    let (mut m, mut data) = new_machine(5, 5);
    load(&mut m, &mut data, 3);
    let before = data.clone();
    assert_eq!(
        remove_item(&m, &mut data, &key(1), 3, &key(13), &key(50), 1),
        Err(GumballError::IndexGreaterThanLength)
    );
    assert_eq!(
        remove_item(&m, &mut data, &key(99), 0, &key(10), &key(50), 1),
        Err(GumballError::InvalidAuthority)
    );
    assert_eq!(
        remove_item(&m, &mut data, &key(1), 0, &key(10), &key(51), 1),
        Err(GumballError::InvalidSeller)
    );
    assert_eq!(
        remove_item(&m, &mut data, &key(1), 0, &key(11), &key(50), 1),
        Err(GumballError::InvalidMint)
    );
    assert_eq!(
        remove_item(&m, &mut data, &key(1), 0, &key(10), &key(50), 2),
        Err(GumballError::InvalidAmount)
    );
    assert_eq!(data, before);
    m.state = GumballState::SaleLive;
    assert_eq!(
        remove_item(&m, &mut data, &key(1), 0, &key(10), &key(50), 1),
        Err(GumballError::InvalidState)
    );
}

#[test]
fn append_then_remove_restores_the_count() {
    let (mut m, mut data) = new_machine(5, 5);
    load(&mut m, &mut data, 2);
    let before = get_config_count(&data);
    add_item(&mut m, &mut data, &item(30, 50, 4), TokenStandard::Fungible, 1, None).unwrap();
    remove_item(&m, &mut data, &key(50), before as u32, &key(30), &key(50), 4).unwrap();
    assert_eq!(get_config_count(&data), before);
    assert_eq!(line_bytes(&m, &data, before), vec![0u8; 105]);
}

#[test]
fn remove_span_moves_the_tail_down() {
    let (mut m, mut data) = new_machine(6, 5);
    add_item(&mut m, &mut data, &item(40, 50, 9), TokenStandard::Fungible, 3, None).unwrap();
    add_item(&mut m, &mut data, &item(41, 50, 2), TokenStandard::Fungible, 2, None).unwrap();
    let moved = line_bytes(&m, &data, 3);
    remove_multiple_items_span(&m, &mut data, &key(50), &key(40), &key(50), 9, 1, 2).unwrap();
    assert_eq!(get_config_count(&data), 3);
    assert_eq!(line_bytes(&m, &data, 1), moved);
    assert_eq!(line_bytes(&m, &data, 3), vec![0u8; 105]);
    assert_eq!(line_bytes(&m, &data, 4), vec![0u8; 105]);
    assert!(tail_is_zero(&m, &data));
    assert_eq!(
        remove_multiple_items_span(&m, &mut data, &key(50), &key(40), &key(50), 9, 2, 1),
        Err(GumballError::InvalidInputLength)
    );
    assert_eq!(
        remove_multiple_items_span(&m, &mut data, &key(50), &key(40), &key(50), 9, 0, 3),
        Err(GumballError::IndexGreaterThanLength)
    );
}

#[test]
fn remove_several_keeps_the_prefix_dense() {
    let (mut m, mut data) = new_machine(6, 5);
    add_item(&mut m, &mut data, &item(40, 50, 1), TokenStandard::Fungible, 5, None).unwrap();
    remove_multiple_items(&m, &mut data, &key(50), &key(40), &key(50), &vec![1, 0], 1).unwrap();
    assert_eq!(get_config_count(&data), 3);
    assert!(tail_is_zero(&m, &data));
    assert_eq!(
        remove_multiple_items(&m, &mut data, &key(50), &key(40), &key(50), &vec![1, 1], 1),
        Err(GumballError::DuplicateIndex)
    );
    assert_eq!(
        remove_multiple_items(&m, &mut data, &key(50), &key(40), &key(50), &vec![], 1),
        Err(GumballError::InvalidInputLength)
    );
    assert_eq!(
        remove_multiple_items(&m, &mut data, &key(50), &key(40), &key(50), &vec![3], 1),
        Err(GumballError::IndexGreaterThanLength)
    );
}

#[test]
fn draw_from_an_empty_machine() {
    let (mut m, mut data) = new_machine(2, 5);
    load(&mut m, &mut data, 2);
    start_sale(&mut m, &data).unwrap();
    m.items_redeemed = 2;
    let (m0, d0) = (m.clone(), data.clone());
    assert_eq!(process_draw(&mut m, &mut data, &key(9), 1), Err(GumballError::GumballMachineEmpty));
    assert_eq!(data, d0);
    assert_eq!(m.items_redeemed, m0.items_redeemed);
    assert_eq!(m.state, m0.state);
}

#[test]
fn draw_needs_a_live_and_fully_loaded_sale() {
    let (mut m, mut data) = new_machine(3, 5);
    load(&mut m, &mut data, 2);
    m.finalized_items_count = 2;
    assert_eq!(process_draw(&mut m, &mut data, &key(9), 1), Err(GumballError::InvalidState));
    m.state = GumballState::SaleLive;
    m.finalized_items_count = 3;
    assert_eq!(process_draw(&mut m, &mut data, &key(9), 1), Err(GumballError::NotFullyLoaded));
}

#[test]
fn sale_state_transitions() {
    let (mut m, data) = new_machine(3, 5);
    assert_eq!(end_sale(&mut m), Err(GumballError::InvalidState));
    start_sale(&mut m, &data).unwrap();
    assert_eq!(start_sale(&mut m, &data), Err(GumballError::InvalidState));
    assert!(m.can_settle_items());
    assert!(m.can_add_items());
    assert!(m.can_edit_items());
    assert!(!m.is_before_sale());
    m.settings.sellers_merkle_root = Some([1; 32]);
    assert!(!m.can_edit_items());
    m.settings.sellers_merkle_root = None;
    end_sale(&mut m).unwrap();
    assert_eq!(m.state, GumballState::SaleEnded);
    assert!(!m.can_add_items());
}

#[test]
fn seed_subtracts_the_timestamp() {
    let mut blob = vec![0u8; 40];
    blob[12..20].copy_from_slice(&1_000_000u64.to_le_bytes());
    assert_eq!(draw_seed(&blob, 400), 999_600);
    assert_eq!(draw_seed(&blob, 2_000_000), 0);
    assert_eq!(draw_seed(&blob, -1), 0);
}

#[test]
fn revenue_is_checked() {
    let (mut m, _) = new_machine(1, 5);
    increment_total_revenue(&mut m, 10).unwrap();
    assert_eq!(m.total_revenue, 10);
    assert_eq!(
        increment_total_revenue(&mut m, u64::MAX),
        Err(GumballError::NumericalOverflowError)
    );
}

#[test]
fn settle_pays_curator_and_seller() {
    let (mut m, mut data) = new_machine(1, 5);
    m.settings.curator_fee_bps = 500;
    load(&mut m, &mut data, 1);
    start_sale(&mut m, &data).unwrap();
    process_draw(&mut m, &mut data, &key(9), 0).unwrap();
    m.total_revenue = 1000;
    let mut h = history(1);
    let out = settle_item(&mut m, &mut data, 0, &mut h, &no_royalties(), &no_balances(), None).unwrap();
    assert!(out.claimed_now);
    assert_eq!(out.amount, 1);
    assert_eq!(out.split.total_proceeds, 1000);
    assert_eq!(out.split.curator_fee, 50);
    assert_eq!(out.split.seller_proceeds, 950);
    assert_eq!(out.split.marketplace_fee, 0);
    assert!(is_settled(&m, &data, 0));
    assert!(is_claimed_bit(&m, &data, 0));
    assert_eq!(m.items_settled, 1);
    assert_eq!(h.item_count, 0);
}

#[test]
fn settling_twice_is_refused() {
    let (mut m, mut data) = new_machine(2, 5);
    m.total_revenue = 100;
    load(&mut m, &mut data, 2);
    m.state = GumballState::SaleEnded;
    let mut h = history(2);
    settle_item(&mut m, &mut data, 1, &mut h, &no_royalties(), &no_balances(), None).unwrap();
    let (m0, d0, h0) = (m.clone(), data.clone(), h);
    let again = settle_item(&mut m, &mut data, 1, &mut h, &no_royalties(), &no_balances(), None);
    assert!(matches!(again, Err(GumballError::ItemAlreadySettled)));
    assert_eq!(data, d0);
    assert_eq!(m.items_settled, m0.items_settled);
    assert_eq!(h.item_count, h0.item_count);
}

#[test]
fn settled_items_are_always_claimed() {
    let (mut m, mut data) = new_machine(4, 5);
    m.total_revenue = 400;
    load(&mut m, &mut data, 4);
    m.state = GumballState::SaleEnded;
    let mut h = history(4);
    claim_item(&m, &mut data, 2).unwrap();
    settle_item(&mut m, &mut data, 0, &mut h, &no_royalties(), &no_balances(), None).unwrap();
    settle_item(&mut m, &mut data, 2, &mut h, &no_royalties(), &no_balances(), None).unwrap();
    for i in 0..4 {
        assert!(!is_settled(&m, &data, i) || is_claimed_bit(&m, &data, i));
    }
    assert!(is_item_claimed(&m, &data, 2));
    assert!(!is_item_claimed(&m, &data, 3));
}

#[test]
fn settle_needs_a_settlement_state() {
    let (mut m, mut data) = new_machine(2, 5);
    load(&mut m, &mut data, 2);
    let mut h = history(2);
    let r = settle_item(&mut m, &mut data, 0, &mut h, &no_royalties(), &no_balances(), None);
    assert!(matches!(r, Err(GumballError::InvalidState)));
    m.state = GumballState::SaleEnded;
    let r = settle_item(&mut m, &mut data, 5, &mut h, &no_royalties(), &no_balances(), None);
    assert!(matches!(r, Err(GumballError::IndexGreaterThanLength)));
}

#[test]
fn claim_is_once_only() {
    let (mut m, mut data) = new_machine(2, 5);
    add_item(&mut m, &mut data, &item(40, 50, 12), TokenStandard::Fungible, 1, None).unwrap();
    assert_eq!(claim_item(&m, &mut data, 0), Ok(12));
    assert_eq!(claim_item(&m, &mut data, 0), Err(GumballError::ItemAlreadyClaimed));
}

#[test]
fn proceeds_divide_the_residual_revenue() {
    let (mut m, _) = new_machine(4, 5);
    m.total_revenue = 1000;
    m.marketplace_fee_config = Some(FeeConfig { fee_account: key(5), fee_bps: 1000 });
    // 100 was taken at draw time; 300 already settled; 3 of 4 items unsettled
    m.items_settled = 1;
    assert_eq!(get_total_proceeds(&m, 300, 4), Ok((200, 1000)));
    m.items_settled = 4;
    assert_eq!(get_total_proceeds(&m, 0, 4), Err(GumballError::NumericalOverflowError));
    m.version = 0;
    m.items_settled = 0;
    assert_eq!(get_total_proceeds(&m, 0, 4), Ok((250, 1000)));
}

#[test]
fn split_with_fees_and_royalties() {
    let (mut m, _) = new_machine(4, 0);
    m.settings.curator_fee_bps = 1000;
    let info = RoyaltyInfo {
        is_primary_sale: false,
        seller_fee_basis_points: 500,
        creators: Some(vec![
            Creator { address: key(60), share: 70 },
            Creator { address: key(61), share: 30 },
        ]),
    };
    // the second creator's native account would stay below the minimum
    let rent = balances(vec![1000, 0], 1000, true);
    let s = transfer_proceeds(&m, 1000, 200, &info, &rent, false, false).unwrap();
    assert_eq!(s.marketplace_fee, 20);
    assert_eq!(s.curator_fee, 100);
    // royalty: 5% of 880 = 44, owed 30 / 13; only the first is paid
    assert_eq!(s.creator_fees, vec![30, 0]);
    assert_eq!(s.royalties_paid, 30);
    assert_eq!(s.seller_proceeds, 850);
    let primary = RoyaltyInfo { is_primary_sale: true, ..info.clone() };
    let p = transfer_proceeds(&m, 1000, 200, &primary, &balances(vec![0, 0], 0, false), false, false).unwrap();
    assert_eq!(p.royalties_paid, 616 + 264);
    assert_eq!(p.seller_proceeds, 0);
    let off = transfer_proceeds(&m, 1000, 200, &info, &balances(vec![0, 0], 0, false), false, true).unwrap();
    assert_eq!(off.royalties_paid, 0);
    assert_eq!(off.seller_proceeds, 880);
    m.settings.curator_fee_bps = 9900;
    assert!(matches!(
        transfer_proceeds(&m, 1000, 200, &info, &balances(vec![0, 0], 0, false), false, false),
        Err(GumballError::NumericalOverflowError)
    ));
}

#[test]
fn creator_royalties_by_share() {
    let creators = vec![
        Creator { address: key(60), share: 50 },
        Creator { address: key(61), share: 50 },
    ];
    let open = balances(vec![0, 0], 0, true);
    assert_eq!(pay_creator_royalties(&creators, &open, 101), Ok((vec![50, 50], 100)));
    let rent = balances(vec![0, 100], 50, true);
    assert_eq!(pay_creator_royalties(&creators, &rent, 10), Ok((vec![0, 5], 5)));
    let token = balances(vec![0, 100], 50, false);
    assert_eq!(pay_creator_royalties(&creators, &token, 10), Ok((vec![5, 5], 10)));
    assert_eq!(pay_creator_royalties(&creators, &open, 1), Ok((vec![0, 0], 0)));
}

#[test]
fn re_add_a_bought_back_item() {
    let (mut m, mut data) = new_machine(4, 5);
    load(&mut m, &mut data, 4);
    start_sale(&mut m, &data).unwrap();
    m.total_revenue = 400;
    for seed in [2u64, 0, 1, 0] {
        process_draw(&mut m, &mut data, &key(9), seed).unwrap();
    }
    m.state = GumballState::SaleLive;
    let mut h = history(4);
    settle_item(&mut m, &mut data, 2, &mut h, &no_royalties(), &no_balances(), None).unwrap();
    claim_item(&m, &mut data, 3).unwrap();
    assert_eq!(m.items_redeemed, 4);
    assert_eq!(m.items_settled, 1);
    add_item(&mut m, &mut data, &item(12, 50, 1), TokenStandard::NonFungible, 1, Some(2)).unwrap();
    assert!(!is_claimed_bit(&m, &data, 2));
    assert!(!is_settled(&m, &data, 2));
    assert_eq!(m.items_redeemed, 3);
    assert_eq!(m.items_settled, 0);
    assert_eq!(buyer_bytes(&m, &data, 2), vec![0u8; 32]);
    assert_eq!(mint_index(&m, &data, 0), 2);
    let before = data.clone();
    let r = add_item(&mut m, &mut data, &item(13, 50, 1), TokenStandard::NonFungible, 1, Some(3));
    assert_eq!(r, Err(GumballError::ItemNotSettled));
    let r = add_item(&mut m, &mut data, &item(11, 50, 1), TokenStandard::NonFungible, 1, Some(1));
    assert_eq!(r, Err(GumballError::ItemNotClaimed));
    assert_eq!(data, before);
}

#[test]
fn add_item_rejections() {
    let (mut m, mut data) = new_machine(4, 4);
    let r = add_item(&mut m, &mut data, &item(12, 50, 1), TokenStandard::Core, 1, Some(0));
    assert_eq!(r, Err(GumballError::InvalidVersion));
    m.version = 5;
    m.state = GumballState::SaleLive;
    let r = add_item(&mut m, &mut data, &item(12, 50, 1), TokenStandard::Core, 1, None);
    assert_eq!(r, Err(GumballError::MissingItemIndex));
    m.state = GumballState::SaleEnded;
    let r = add_item(&mut m, &mut data, &item(12, 50, 1), TokenStandard::Core, 1, Some(0));
    assert_eq!(r, Err(GumballError::InvalidState));
    m.state = GumballState::NotStarted;
    let r = add_item(&mut m, &mut data, &item(12, 50, 1), TokenStandard::Core, 1, Some(u32::MAX));
    assert_eq!(r, Err(GumballError::NumericalOverflowError));
}

#[test]
fn config_line_must_match() {
    let (mut m, mut data) = new_machine(2, 5);
    add_item(&mut m, &mut data, &item(40, 50, 1), TokenStandard::Core, 1, None).unwrap();
    let good = ConfigLine {
        mint: key(40),
        seller: key(50),
        buyer: Pubkey::new_from_array([0; 32]),
        token_standard: TokenStandard::Core,
    };
    assert_eq!(assert_config_line(&m, &data, 0, &good), Ok(()));
    let wrong_buyer = ConfigLine { buyer: key(3), ..good };
    assert_eq!(assert_config_line(&m, &data, 0, &wrong_buyer), Err(GumballError::InvalidBuyer));
    let wrong_kind = ConfigLine { token_standard: TokenStandard::Fungible, ..good };
    assert_eq!(
        assert_config_line(&m, &data, 0, &wrong_kind),
        Err(GumballError::InvalidTokenStandard)
    );
    assert_eq!(assert_config_line(&m, &data, 1, &good), Err(GumballError::IndexGreaterThanLength));
}

#[test]
fn span_settlement_returns_unsold_tokens() {
    let (mut m, mut data) = new_machine(4, 5);
    m.settings.curator_fee_bps = 1000;
    add_item(&mut m, &mut data, &item(40, 50, 25), TokenStandard::Fungible, 4, None).unwrap();
    start_sale(&mut m, &data).unwrap();
    process_draw(&mut m, &mut data, &key(9), 0).unwrap();
    m.total_revenue = 400;
    claim_item(&m, &mut data, 0).unwrap();
    end_sale(&mut m).unwrap();
    let mut h = history(4);
    let out = settle_span(&mut m, &mut data, &mut h, &key(40), &key(50), 0, 3).unwrap();
    assert_eq!(out.unsold_tokens, 75);
    assert_eq!(out.split.total_proceeds, 400);
    assert_eq!(out.split.curator_fee, 40);
    assert_eq!(out.split.seller_proceeds, 360);
    assert_eq!(m.items_settled, 4);
    assert_eq!(h.item_count, 0);
    for i in 0..4 {
        assert!(is_settled(&m, &data, i) && is_claimed_bit(&m, &data, i));
    }
    assert_eq!(check_can_close(&m, &data), Ok(()));
    let again = settle_span(&mut m, &mut data, &mut h, &key(40), &key(50), 0, 0);
    assert!(matches!(again, Err(GumballError::ItemAlreadySettled)));
}

#[test]
fn close_needs_everything_settled() {
    let (mut m, mut data) = new_machine(2, 5);
    assert_eq!(check_can_close(&m, &data), Ok(()));
    load(&mut m, &mut data, 2);
    assert_eq!(check_can_close(&m, &data), Err(GumballError::NotAllSettled));
}

fn enabled_config(oracle: u8) -> BuyBackConfig {
    BuyBackConfig {
        enabled: true,
        to_gumball_machine: false,
        oracle_signer: key(oracle),
        value_pct: 80,
        marketplace_fee_bps: 500,
        cutoff_pct: 0,
    }
}

#[test]
fn buy_back_funds_and_sale() {
    let (mut m, mut data) = new_machine(4, 5);
    load(&mut m, &mut data, 4);
    let settings = m.settings.clone();
    update_settings(&mut m, &mut data, settings, Some(enabled_config(70))).unwrap();
    let cfg = m.get_buy_back_config(&data).unwrap();
    assert!(cfg.enabled);
    assert_eq!(cfg.marketplace_fee_bps, 500);
    assert!(cmp_pubkeys(&cfg.oracle_signer, &key(70)));
    assert_eq!(manage_buy_back_funds(&m, &mut data, 1000, false), Ok(1000));
    assert_eq!(manage_buy_back_funds(&m, &mut data, 2000, true), Err(GumballError::InsufficientFunds));
    assert_eq!(manage_buy_back_funds(&m, &mut data, 100, true), Ok(900));
    assert_eq!(m.get_buy_back_funds_available(&data), 900);
    start_sale(&mut m, &data).unwrap();
    let index = process_draw(&mut m, &mut data, &key(9), 0).unwrap();
    let mint = key(10 + index as u8);
    let machine_key = key(4);
    assert_eq!(
        sell_item(&m, &mut data, index, 1, 500, &key(71), &mint, &key(50), &key(1), &machine_key, None)
            .map(|o| o.funds_available),
        Err(GumballError::InvalidOracleSigner)
    );
    assert_eq!(
        sell_item(&m, &mut data, index, 1, 500, &key(70), &mint, &key(50), &key(2), &machine_key, None)
            .map(|o| o.funds_available),
        Err(GumballError::InvalidBuyer)
    );
    assert_eq!(
        sell_item(&m, &mut data, index, 1, 500, &key(70), &mint, &key(50), &key(1), &machine_key, Some(key(8)))
            .map(|o| o.funds_available),
        Err(GumballError::InvalidPaymentMint)
    );
    assert_eq!(
        sell_item(&m, &mut data, index, 1, 901, &key(70), &mint, &key(50), &key(1), &machine_key, None)
            .map(|o| o.funds_available),
        Err(GumballError::InsufficientFunds)
    );
    let out = sell_item(&m, &mut data, index, 1, 500, &key(70), &mint, &key(50), &key(1), &machine_key, None)
        .unwrap();
    assert_eq!(out.marketplace_fee, 25);
    assert_eq!(out.seller_payout, 475);
    assert_eq!(out.funds_available, 400);
    assert_eq!(m.get_buy_back_funds_available(&data), 400);
    assert!(is_item_claimed(&m, &data, index));
    assert_eq!(
        sell_item(&m, &mut data, index, 1, 10, &key(70), &mint, &key(50), &key(1), &machine_key, None)
            .map(|o| o.funds_available),
        Err(GumballError::ItemAlreadyClaimed)
    );
}

#[test]
fn buy_back_needs_version_and_enabling() {
    let (m, mut data) = new_machine(2, 3);
    assert_eq!(manage_buy_back_funds(&m, &mut data, 1, false), Err(GumballError::InvalidVersion));
    let (m, mut data) = new_machine(2, 5);
    assert_eq!(manage_buy_back_funds(&m, &mut data, 1, false), Err(GumballError::BuyBackNotEnabled));
}

#[test]
fn buy_back_cutoff() {
    let (mut m, mut data) = new_machine(4, 5);
    load(&mut m, &mut data, 4);
    let settings = m.settings.clone();
    let cfg = BuyBackConfig { cutoff_pct: 80, ..enabled_config(70) };
    update_settings(&mut m, &mut data, settings, Some(cfg)).unwrap();
    manage_buy_back_funds(&m, &mut data, 1000, false).unwrap();
    start_sale(&mut m, &data).unwrap();
    let index = process_draw(&mut m, &mut data, &key(9), 0).unwrap();
    // 3 of 4 remain: 75% is at or below the 80% cutoff
    let r = sell_item(&m, &mut data, index, 1, 10, &key(70), &key(10 + index as u8), &key(50), &key(1), &key(4), None);
    assert_eq!(r.map(|o| o.funds_available), Err(GumballError::BuyBackCutoffReached));
}

#[test]
fn settings_updates_are_limited() {
    let (mut m, mut data) = new_machine(4, 5);
    let mut s = m.settings.clone();
    s.item_capacity = 5;
    assert_eq!(update_settings(&mut m, &mut data, s, None), Err(GumballError::InvalidSettingUpdate));
    load(&mut m, &mut data, 1);
    let mut s = m.settings.clone();
    s.curator_fee_bps = 100;
    assert_eq!(update_settings(&mut m, &mut data, s, None), Err(GumballError::InvalidSettingUpdate));
    let mut s = m.settings.clone();
    s.sellers_merkle_root = Some([7; 32]);
    s.items_per_seller = 200;
    update_settings(&mut m, &mut data, s, None).unwrap();
    assert_eq!(m.state, GumballState::DetailsFinalized);
    assert_eq!(m.settings.items_per_seller, 200);
    m.items_redeemed = 1;
    let s = m.settings.clone();
    assert_eq!(
        update_settings(&mut m, &mut data, s, Some(enabled_config(1))),
        Err(GumballError::InvalidState)
    );
}

fn hash_pair_for_test(a: &[u8; 32], b: &[u8; 32]) -> [u8; 32] {
    if a <= b {
        solana_program::keccak::hashv(&[a, b]).0
    } else {
        solana_program::keccak::hashv(&[b, a]).0
    }
}

#[test]
fn merkle_proofs() {
    let leaf = [3u8; 32];
    assert!(verify_proof(&vec![], &leaf, &leaf));
    let sibling = [1u8; 32];
    let root = hash_pair_for_test(&leaf, &sibling);
    assert!(verify_proof(&vec![sibling], &root, &leaf));
    assert!(!verify_proof(&vec![sibling], &leaf, &leaf));
    let other = [9u8; 32];
    let root2 = hash_pair_for_test(&root, &other);
    assert!(verify_proof(&vec![sibling, other], &root2, &leaf));
}

#[test]
fn allow_listed_sellers_may_add() {
    let (mut m, _) = new_machine(4, 5);
    let seller = key(50);
    let text = solana_program::pubkey::Pubkey::new_from_array([50; 32]).to_string();
    let leaf = solana_program::keccak::hashv(&[text.as_bytes()]).0;
    let sibling = [4u8; 32];
    let root = hash_pair_for_test(&leaf, &sibling);
    m.settings.sellers_merkle_root = Some(root);
    m.settings.items_per_seller = 2;
    let h = SellerHistory { gumball_machine: key(3), seller, item_count: 1 };
    assert_eq!(assert_can_add_item(&m, &h, 1, Some(vec![sibling])), Ok(()));
    assert_eq!(assert_can_add_item(&m, &h, 1, Some(vec![[5u8; 32]])), Err(GumballError::InvalidProofPath));
    assert_eq!(assert_can_add_item(&m, &h, 1, None), Err(GumballError::InvalidProofPath));
    assert_eq!(assert_can_add_item(&m, &h, 2, Some(vec![sibling])), Err(GumballError::SellerTooManyItems));
    let owner = SellerHistory { seller: key(1), ..h };
    assert_eq!(assert_can_add_item(&m, &owner, 9, None), Ok(()));
    assert_eq!(assert_can_request_add_item(&m, &owner), Err(GumballError::SellerCannotBeAuthority));
    assert_eq!(assert_can_request_add_item(&m, &h), Ok(()));
    let full = SellerHistory { item_count: 2, ..h };
    assert_eq!(assert_can_request_add_item(&m, &full), Err(GumballError::SellerTooManyItems));
}

#[test]
fn add_item_request_init() {
    let mut req = AddItemRequest {
        gumball_machine: key(0),
        seller: key(0),
        asset: key(0),
        token_standard: TokenStandard::NonFungible,
    };
    req.init(key(3), key(50), key(40), TokenStandard::Core).unwrap();
    assert!(cmp_pubkeys(&req.asset, &key(40)));
    assert_eq!(req.token_standard, TokenStandard::Core);
    assert_eq!(AddItemRequest::SPACE, 105);
}

#[test]
fn check_keys_equal() {
    let key1 = Pubkey::new_from_array([42; 32]);
    assert!(cmp_pubkeys(&key1, &key1));
}

#[test]
fn check_keys_not_equal() {
    let key1 = Pubkey::new_from_array([42; 32]);
    let mut other = [42u8; 32];
    other[31] = 43;
    let key2 = Pubkey::new_from_array(other);
    assert!(!cmp_pubkeys(&key1, &key2));
}

#[test]
fn sell_item_rejections() {
    let (mut m, mut data) = new_machine(4, 5);
    load(&mut m, &mut data, 4);
    let settings = m.settings.clone();
    update_settings(&mut m, &mut data, settings, Some(enabled_config(70))).unwrap();
    manage_buy_back_funds(&m, &mut data, 1000, false).unwrap();
    let seller = key(50);
    let buyer = key(1);
    let machine_key = key(4);
    let r = sell_item(&m, &mut data, 0, 1, 10, &key(70), &key(10), &seller, &buyer, &machine_key, None);
    assert_eq!(r.map(|o| o.funds_available), Err(GumballError::InvalidState));
    start_sale(&mut m, &data).unwrap();
    let r = sell_item(&m, &mut data, 9, 1, 10, &key(70), &key(10), &seller, &buyer, &machine_key, None);
    assert_eq!(r.map(|o| o.funds_available), Err(GumballError::IndexGreaterThanLength));
    let r = sell_item(&m, &mut data, 0, 1, 10, &key(70), &key(11), &seller, &buyer, &machine_key, None);
    assert_eq!(r.map(|o| o.funds_available), Err(GumballError::InvalidMint));
    let r = sell_item(&m, &mut data, 0, 1, 10, &key(70), &key(10), &key(51), &buyer, &machine_key, None);
    assert_eq!(r.map(|o| o.funds_available), Err(GumballError::InvalidSeller));
    let r = sell_item(&m, &mut data, 0, 2, 10, &key(70), &key(10), &seller, &buyer, &machine_key, None);
    assert_eq!(r.map(|o| o.funds_available), Err(GumballError::InvalidAmount));
    let r = sell_item(&m, &mut data, 0, 1, 5000, &key(70), &key(10), &seller, &buyer, &machine_key, None);
    assert_eq!(r.map(|o| o.funds_available), Err(GumballError::InsufficientFunds));
    // buying back into the machine itself is not supported
    let (mut m2, mut data2) = new_machine(2, 5);
    load(&mut m2, &mut data2, 2);
    let settings = m2.settings.clone();
    let to_machine = BuyBackConfig { to_gumball_machine: true, ..enabled_config(70) };
    update_settings(&mut m2, &mut data2, settings, Some(to_machine)).unwrap();
    start_sale(&mut m2, &data2).unwrap();
    let r = sell_item(&m2, &mut data2, 0, 1, 0, &key(70), &key(10), &seller, &machine_key, &machine_key, None);
    assert_eq!(r.map(|o| o.funds_available), Err(GumballError::NotImplemented));
    // a disabled config refuses every buy-back
    let (mut m3, mut data3) = new_machine(2, 5);
    load(&mut m3, &mut data3, 2);
    start_sale(&mut m3, &data3).unwrap();
    let r = sell_item(&m3, &mut data3, 0, 1, 0, &key(70), &key(10), &seller, &buyer, &machine_key, None);
    assert_eq!(r.map(|o| o.funds_available), Err(GumballError::BuyBackNotEnabled));
    let r = sell_item(&m, &mut data, 0, 1, 10, &key(70), &key(10), &seller, &buyer, &machine_key, None);
    assert_eq!(r.map(|o| o.funds_available), Ok(1000 - 10));
}

#[test]
fn corrupt_buy_back_config_is_reported() {
    let (m, mut data) = new_machine(2, 5);
    let p = m.get_buy_back_config_position().unwrap();
    data[p] = 7;
    assert!(matches!(m.get_buy_back_config(&data), Err(GumballError::InvalidAccountData)));
    assert_eq!(manage_buy_back_funds(&m, &mut data, 1, true), Err(GumballError::InvalidAccountData));
}

#[test]
fn claim_tokens_checks_the_line_and_recipient() {
    let (mut m, mut data) = new_machine(2, 5);
    add_item(&mut m, &mut data, &item(40, 50, 8), TokenStandard::Fungible, 1, None).unwrap();
    let line = ConfigLine {
        mint: key(40),
        seller: key(50),
        buyer: Pubkey::new_from_array([0; 32]),
        token_standard: TokenStandard::Fungible,
    };
    let wrong = ConfigLine { mint: key(41), ..line };
    assert_eq!(claim_tokens(&m, &mut data, 0, &wrong, &key(50)), Err(GumballError::InvalidMint));
    let zero = Pubkey::new_from_array([0; 32]);
    assert_eq!(claim_tokens(&m, &mut data, 0, &line, &zero), Err(GumballError::InvalidAuthority));
    assert_eq!(claim_tokens(&m, &mut data, 0, &line, &key(50)), Ok(8));
    assert_eq!(claim_tokens(&m, &mut data, 0, &line, &key(50)), Err(GumballError::ItemAlreadyClaimed));
}

#[test]
fn settle_checks_the_payment_mint() {
    let (mut m, mut data) = new_machine(2, 5);
    m.settings.payment_mint = key(88);
    m.total_revenue = 100;
    load(&mut m, &mut data, 2);
    m.state = GumballState::SaleEnded;
    let mut h = history(2);
    let r = settle_item(&mut m, &mut data, 0, &mut h, &no_royalties(), &no_balances(), None);
    assert!(matches!(r, Err(GumballError::InvalidPaymentMint)));
    let r = settle_item(&mut m, &mut data, 0, &mut h, &no_royalties(), &no_balances(), Some(key(89)));
    assert!(matches!(r, Err(GumballError::InvalidPaymentMint)));
    let r = settle_item(&mut m, &mut data, 0, &mut h, &no_royalties(), &no_balances(), Some(key(88)));
    assert_eq!(r.map(|o| o.split.total_proceeds).ok(), Some(50));
}

#[test]
fn buy_back_may_spend_all_funds() {
    let (mut m, mut data) = new_machine(2, 5);
    load(&mut m, &mut data, 2);
    let settings = m.settings.clone();
    update_settings(&mut m, &mut data, settings, Some(enabled_config(70))).unwrap();
    manage_buy_back_funds(&m, &mut data, 100, false).unwrap();
    start_sale(&mut m, &data).unwrap();
    let out = sell_item(&m, &mut data, 0, 1, 100, &key(70), &key(10), &key(50), &key(1), &key(4), None)
        .unwrap();
    assert_eq!(out.marketplace_fee, 5);
    assert_eq!(out.seller_payout, 95);
    assert_eq!(out.funds_available, 0);
}
