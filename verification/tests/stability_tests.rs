use stable_channels::money::USD;
use stable_channels::stable::ChannelSnapshot;
use stable_channels::stable::StabilityAction;
use stable_channels::stable::StableChannel;
use stable_channels::stable::check_stability;
use stable_channels::stable::classify;
use stable_channels::stable::update_balances;

// $50,000 per bitcoin, in cents.
const PRICE_50K: u64 = 5_000_000;

// $100, in USD units.
const HUNDRED_USD: i64 = 10_000_000_000_000;

fn receiver_channel() -> StableChannel {
    StableChannel::new(
        vec![1u8; 32],
        vec![2u8; 33],
        true,
        USD::from_units(HUNDRED_USD),
        String::new(),
        0,
    )
}

fn snapshot(channel_value_sats: u64, outbound_capacity_msat: u64) -> ChannelSnapshot {
    ChannelSnapshot {
        channel_id: vec![1u8; 32],
        channel_value_sats,
        outbound_capacity_msat,
        unspendable_punishment_reserve: None,
        counterparty_node_id: vec![2u8; 33],
    }
}

#[test]
fn balance_split_conserves_channel_value() {
    let mut sc = receiver_channel();
    sc.latest_price = PRICE_50K;
    let details = ChannelSnapshot {
        channel_id: vec![1u8; 32],
        channel_value_sats: 300_000,
        outbound_capacity_msat: 185_000_000,
        unspendable_punishment_reserve: Some(5_000),
        counterparty_node_id: vec![2u8; 33],
    };
    update_balances(&mut sc, Some(details));
    // ours: 185_000_000 / 1000 + 5_000 = 190_000.
    assert_eq!(sc.stable_receiver_btc.sats, 190_000);
    assert_eq!(sc.stable_provider_btc.sats, 110_000);
    assert_eq!(
        sc.stable_receiver_btc.sats + sc.stable_provider_btc.sats,
        300_000
    );
}

#[test]
fn update_balances_swaps_sides_for_provider() {
    let mut sc = receiver_channel();
    sc.is_stable_receiver = false;
    sc.latest_price = PRICE_50K;
    update_balances(&mut sc, Some(snapshot(300_000, 190_000_000)));
    assert_eq!(sc.stable_provider_btc.sats, 190_000);
    assert_eq!(sc.stable_receiver_btc.sats, 110_000);
    assert_eq!(sc.stable_receiver_usd.units, 110_000 * 10 * PRICE_50K as i64);
}

#[test]
fn update_balances_without_details_zeroes() {
    let mut sc = receiver_channel();
    sc.latest_price = PRICE_50K;
    update_balances(&mut sc, None);
    assert_eq!(sc.stable_receiver_btc.sats, 0);
    assert_eq!(sc.stable_provider_btc.sats, 0);
    assert_eq!(sc.stable_receiver_usd.units, 0);
    assert_eq!(sc.stable_provider_usd.units, 0);
}

#[test]
fn small_deviation_does_nothing_either_side_of_par() {
    // 0.05% off the $100 target, both below and above: under the
    // 0.1% threshold, whatever the role.
    let just_below = USD::from_units(HUNDRED_USD - HUNDRED_USD / 2000);
    let just_above = USD::from_units(HUNDRED_USD + HUNDRED_USD / 2000);
    let target = USD::from_units(HUNDRED_USD);
    for role in [true, false] {
        for balance in [just_below, just_above] {
            assert_eq!(
                classify(role, 0, balance, target, PRICE_50K),
                StabilityAction::DoNothing
            );
        }
    }
}

#[test]
fn threshold_is_exclusive_at_a_tenth_of_a_percent() {
    // Exactly 0.1% off is no longer "under" the threshold.
    let at_threshold = USD::from_units(HUNDRED_USD + HUNDRED_USD / 1000);
    let target = USD::from_units(HUNDRED_USD);
    assert_ne!(
        classify(true, 0, at_threshold, target, PRICE_50K),
        StabilityAction::DoNothing
    );
}

#[test]
fn role_symmetry_of_wait_and_pay() {
    let below = USD::from_units(9_500_000_000_000);
    let above = USD::from_units(10_500_000_000_000);
    let target = USD::from_units(HUNDRED_USD);
    // Receiver below target waits; receiver above target pays.
    assert_eq!(classify(true, 0, below, target, PRICE_50K), StabilityAction::Wait);
    assert!(matches!(
        classify(true, 0, above, target, PRICE_50K),
        StabilityAction::Pay { .. }
    ));
    // Provider below target pays; provider above target waits.
    assert!(matches!(
        classify(false, 0, below, target, PRICE_50K),
        StabilityAction::Pay { .. }
    ));
    assert_eq!(classify(false, 0, above, target, PRICE_50K), StabilityAction::Wait);
}

#[test]
fn receiver_below_target_waits() {
    // $100 target, $50,000 price, 190_000 sats (~$95): 5% below par,
    // receiver role: wait for the counterparty to correct.
    let mut sc = receiver_channel();
    let action = check_stability(&mut sc, Some(snapshot(300_000, 190_000_000)), PRICE_50K);
    assert_eq!(action, StabilityAction::Wait);
    assert_eq!(sc.latest_price, PRICE_50K);
    assert_eq!(sc.stable_receiver_usd.units, 9_500_000_000_000);
}

#[test]
fn receiver_above_target_pays_the_difference() {
    // Same setup with 210_000 sats (~$105): receiver above target pays
    // about $5, which at $50,000 is 10_000_000 msat.
    let mut sc = receiver_channel();
    let action = check_stability(&mut sc, Some(snapshot(300_000, 210_000_000)), PRICE_50K);
    assert_eq!(action, StabilityAction::Pay { amount_msat: 10_000_000 });
}

#[test]
fn high_risk_blocks_any_payment() {
    let mut sc = receiver_channel();
    sc.risk_level = 150;
    let action = check_stability(&mut sc, Some(snapshot(300_000, 210_000_000)), PRICE_50K);
    assert_eq!(action, StabilityAction::HighRisk);
}

#[test]
fn missing_snapshot_keeps_previous_balances() {
    let mut sc = receiver_channel();
    check_stability(&mut sc, Some(snapshot(300_000, 190_000_000)), PRICE_50K);
    let before_receiver = sc.stable_receiver_usd;
    let before_provider = sc.stable_provider_usd;
    let action = check_stability(&mut sc, None, PRICE_50K);
    assert_eq!(action, StabilityAction::Wait);
    assert_eq!(sc.stable_receiver_usd, before_receiver);
    assert_eq!(sc.stable_provider_usd, before_provider);
}

#[test]
fn find_channel_takes_first_match() {
    let mut a = snapshot(1_000, 100_000);
    a.channel_id = vec![7u8; 32];
    let b = snapshot(2_000, 200_000);
    let mut c = snapshot(3_000, 300_000);
    c.channel_id = b.channel_id.clone();
    let channels = vec![a, b, c];
    assert_eq!(
        stable_channels::stable::find_channel(&channels, &vec![1u8; 32]),
        Some(1)
    );
    assert_eq!(
        stable_channels::stable::find_channel(&channels, &vec![7u8; 32]),
        Some(0)
    );
    assert_eq!(
        stable_channels::stable::find_channel(&channels, &vec![9u8; 32]),
        None
    );
}

#[test]
fn reserve_defaults_to_zero() {
    let mut sc = receiver_channel();
    sc.latest_price = PRICE_50K;
    update_balances(&mut sc, Some(snapshot(300_000, 190_000_000)));
    assert_eq!(sc.stable_receiver_btc.sats, 190_000);
}
