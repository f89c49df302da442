use stable_channels::price_feeds::PriceSample;
use stable_channels::price_feeds::aggregate_price;
use stable_channels::price_feeds::calculate_median_price;
use stable_channels::price_feeds::parse_price_cents;
use stable_channels::price_feeds::set_price_feeds;

fn sample(name: &str, price_cents: Option<u64>) -> PriceSample {
    PriceSample { source: name.to_owned(), price_cents }
}

#[test]
fn median_of_odd_count() {
    let prices: Vec<u64> = vec![9_700_000, 9_400_000, 9_500_000];
    assert_eq!(calculate_median_price(&prices), Some(9_500_000));
}

#[test]
fn median_of_even_count_is_mean_of_middle_two() {
    let prices: Vec<u64> = vec![9_700_000, 9_400_000, 9_500_000, 9_600_000];
    assert_eq!(calculate_median_price(&prices), Some(9_550_000));
}

#[test]
fn median_of_none_is_none() {
    let prices: Vec<u64> = Vec::new();
    assert_eq!(calculate_median_price(&prices), None);
}

#[test]
fn median_resists_one_outlier() {
    let prices: Vec<u64> = vec![9_500_000, 9_500_001, 1];
    assert_eq!(calculate_median_price(&prices), Some(9_500_000));
}

#[test]
fn aggregate_is_order_independent() {
    let one = vec![
        sample("a", Some(9_400_000)),
        sample("b", Some(9_700_000)),
        sample("c", Some(9_500_000)),
    ];
    let other = vec![
        sample("c", Some(9_500_000)),
        sample("a", Some(9_400_000)),
        sample("b", Some(9_700_000)),
    ];
    assert_eq!(aggregate_price(&one), aggregate_price(&other));
    assert_eq!(aggregate_price(&one), 9_500_000);
}

#[test]
fn aggregate_drops_failed_sources() {
    let samples = vec![
        sample("a", None),
        sample("b", Some(9_600_000)),
        sample("c", None),
    ];
    assert_eq!(aggregate_price(&samples), 9_600_000);
}

#[test]
fn aggregate_of_total_outage_is_sentinel_zero() {
    let samples = vec![sample("a", None), sample("b", None), sample("c", None)];
    assert_eq!(aggregate_price(&samples), 0);
}

#[test]
fn aggregate_of_no_sources_is_sentinel_zero() {
    let samples: Vec<PriceSample> = Vec::new();
    assert_eq!(aggregate_price(&samples), 0);
}

#[test]
fn parse_bare_number() {
    let body = br#"{"bitcoin":{"usd":96432}}"#;
    assert_eq!(parse_price_cents(body, b"usd"), Some(9_643_200));
}

#[test]
fn parse_number_with_fraction() {
    let body = br#"{"last": 96432.12, "volume": "18"}"#;
    assert_eq!(parse_price_cents(body, b"last"), Some(9_643_212));
}

#[test]
fn parse_quoted_number() {
    let body = br#"{"high": "97000.00", "last": "96432.50", "low": "95000.00"}"#;
    assert_eq!(parse_price_cents(body, b"last"), Some(9_643_250));
}

#[test]
fn parse_array_of_quoted_numbers() {
    let body = br#"{"result":{"XXBTZUSD":{"a":["96433.1","1"],"c":["96432.1","0.002"]}}}"#;
    assert_eq!(parse_price_cents(body, b"c"), Some(9_643_210));
}

#[test]
fn parse_rounds_half_up_by_third_fraction_digit() {
    assert_eq!(parse_price_cents(br#"{"last":10.005}"#, b"last"), Some(1001));
    assert_eq!(parse_price_cents(br#"{"last":10.0049}"#, b"last"), Some(1000));
    assert_eq!(parse_price_cents(br#"{"last":10.999}"#, b"last"), Some(1100));
}

#[test]
fn parse_single_fraction_digit() {
    assert_eq!(parse_price_cents(br#"{"last":10.5}"#, b"last"), Some(1050));
}

#[test]
fn parse_missing_key_fails() {
    assert_eq!(parse_price_cents(br#"{"bid":"96432.1"}"#, b"last"), None);
}

#[test]
fn parse_key_without_number_fails() {
    assert_eq!(parse_price_cents(br#"{"last":"n/a"}"#, b"last"), None);
    assert_eq!(parse_price_cents(br#"{"last":}"#, b"last"), None);
}

#[test]
fn parse_dot_without_fraction_digits_fails() {
    assert_eq!(parse_price_cents(br#"{"last":96432.}"#, b"last"), None);
}

#[test]
fn parse_absurdly_large_price_fails() {
    assert_eq!(parse_price_cents(br#"{"last":1000000001}"#, b"last"), None);
    assert_eq!(parse_price_cents(br#"{"last":1000000000}"#, b"last"), Some(100_000_000_000));
}

#[test]
fn parse_takes_first_occurrence_of_key() {
    let body = br#"{"last": 100, "nested": {"last": 200}}"#;
    assert_eq!(parse_price_cents(body, b"last"), Some(10_000));
}

#[test]
fn parse_allows_whitespace_around_colon() {
    let body = b"{\"last\" :\n\t 42.01}";
    assert_eq!(parse_price_cents(body, b"last"), Some(4201));
}

#[test]
fn configured_feeds_parse_their_own_answer_shapes() {
    let feeds = set_price_feeds();
    assert_eq!(feeds.len(), 5);
    let bodies: [&[u8]; 5] = [
        br#"{"high": "97000", "last": "96432.10", "low": "95000"}"#,
        br#"{"bitcoin": {"usd": 96432.1}}"#,
        br#"{"data": {"amount": "96432.10", "base": "BTC", "currency": "USD"}}"#,
        br#"{"error":[],"result":{"XXBTZUSD":{"c":["96432.10","0.002"]}}}"#,
        br#"{"bid": "96431.00", "ask": "96433.00", "last": "96432.10"}"#,
    ];
    for (feed, body) in feeds.iter().zip(bodies.iter()) {
        assert_eq!(parse_price_cents(body, &feed.key), Some(9_643_210), "{}", feed.name);
    }
}
