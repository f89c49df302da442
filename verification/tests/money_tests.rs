use stable_channels::money::Bitcoin;
use stable_channels::money::USD;

// $50,000 per bitcoin, in cents.
const PRICE_50K: u64 = 5_000_000;

#[test]
fn from_bitcoin_is_exact() {
    // 190_000 sats at $50,000 is exactly $95: 95 * 10^11 units.
    let usd = USD::from_bitcoin(Bitcoin::from_sats(190_000), PRICE_50K);
    assert_eq!(usd.units, 9_500_000_000_000);
}

#[test]
fn from_bitcoin_of_zero_is_zero() {
    let usd = USD::from_bitcoin(Bitcoin::from_sats(0), PRICE_50K);
    assert_eq!(usd.units, 0);
}

#[test]
fn to_msats_converts_five_dollars() {
    // $5 at $50,000 per bitcoin is 10_000 sats, that is 10_000_000 msat.
    let five = USD::from_units(500_000_000_000);
    assert_eq!(five.to_msats(PRICE_50K), 10_000_000);
}

#[test]
fn to_msats_rounds_to_nearest() {
    // 1 unit is 10^-11 dollars; at 200 cents per bitcoin that is half
    // a millisatoshi, and the tie rounds up.
    assert_eq!(USD::from_units(1).to_msats(200), 1);
    // At 300 cents per bitcoin the same unit is a third of a
    // millisatoshi, rounded down.
    assert_eq!(USD::from_units(1).to_msats(300), 0);
}

#[test]
fn round_trip_recovers_satoshis() {
    // sats -> USD -> msats at one price gives back exactly the
    // original amount in millisatoshis.
    for sats in [1u64, 190_000, 210_000, 123_456_789] {
        let btc = Bitcoin::from_sats(sats);
        let usd = USD::from_bitcoin(btc, PRICE_50K);
        assert_eq!(usd.to_msats(PRICE_50K), sats * 1000);
    }
}

#[test]
fn round_trip_at_odd_price() {
    // The round trip is exact at awkward prices too.
    let price: u64 = 9_876_543;
    let usd = USD::from_bitcoin(Bitcoin::from_sats(54_321), price);
    assert_eq!(usd.to_msats(price), 54_321_000);
}

#[test]
fn from_cents_scales() {
    assert_eq!(USD::from_cents(250).units, 250_000_000_000);
}

#[test]
fn bitcoin_to_msats() {
    assert_eq!(Bitcoin::from_sats(7).to_msats(), 7_000);
}

#[test]
fn usd_addition_and_subtraction_are_exact() {
    let a = USD::from_units(300);
    let b = USD::from_units(100);
    assert_eq!(a.add(b).units, 400);
    assert_eq!(b.sub(a).units, -200);
}

#[test]
fn usd_scalar_multiplication() {
    assert_eq!(USD::from_units(-7).mul_scalar(3).units, -21);
}

#[test]
fn usd_scalar_division_rounds_toward_negative_infinity() {
    assert_eq!(USD::from_units(7).div_scalar(2).units, 3);
    assert_eq!(USD::from_units(-7).div_scalar(2).units, -4);
}

#[test]
fn usd_ordering() {
    let small = USD::from_units(-1);
    let large = USD::from_units(1);
    assert!(small.less_than(&large));
    assert!(!large.less_than(&small));
    assert!(!large.less_than(&large));
}

#[test]
fn usd_formatting_rounds_to_two_decimals() {
    // $95 exactly.
    assert_eq!(USD::from_units(9_500_000_000_000).formatted(), "95.00");
    // $1.005 rounds up to $1.01.
    assert_eq!(USD::from_units(100_500_000_000).formatted(), "1.01");
    // $0.004999 rounds down to nothing.
    assert_eq!(USD::from_units(499_900_000).formatted(), "0.00");
    // Ties round away from zero on both sides.
    assert_eq!(USD::from_units(500_000_000).formatted(), "0.01");
    assert_eq!(USD::from_units(-500_000_000).formatted(), "-0.01");
    // A negative sliver that rounds to zero loses its sign.
    assert_eq!(USD::from_units(-400_000_000).formatted(), "0.00");
}

#[test]
fn bitcoin_formatting_keeps_all_eight_decimals() {
    assert_eq!(Bitcoin::from_sats(123_456_789).formatted(), "1.23456789");
    assert_eq!(Bitcoin::from_sats(5).formatted(), "0.00000005");
    assert_eq!(Bitcoin::from_sats(0).formatted(), "0.00000000");
}
