//! The price oracle aggregator.
//!
//! Each configured feed is fetched by the caller; the body that comes
//! back is parsed here, per source, into a price in cents per bitcoin,
//! and a failed fetch or an unparsable body becomes a sample carrying
//! the failure marker. The aggregate of a cycle is the median of the
//! successful samples — resistant to one outlier feed — and the
//! documented sentinel `0` when every source failed; callers treat the
//! sentinel as "no price" and skip the cycle rather than divide by it.

use vstd::prelude::*;
use vstd::multiset::Multiset;
use vstd::relations::sorted_by;
use vstd::relations::total_ordering;
use vstd::seq_lib::lemma_sorted_unique;
use vstd::string::StringSliceAdditionalSpecFns;

verus! {

broadcast use
    vstd::seq_lib::group_to_multiset_ensures,
    vstd::multiset::group_multiset_axioms;

/// One cycle's reading of one price feed: the source's name and the
/// parsed price, or the failure marker of a dropped source.
#[derive(Clone, Debug)]
pub struct PriceSample {
    pub source: String,
    pub price_cents: Option<u64>,
}

/// The order the median sorts by: numeric order of the prices.
pub open spec fn price_le() -> spec_fn(u64, u64) -> bool {
    |a: u64, b: u64| a <= b
}

pub proof fn lemma_price_le_total_ordering()
    ensures
        total_ordering(price_le()),
{
    let leq = price_le();
    assert forall|x: u64| #[trigger] leq(x, x) by {}
    assert forall|x: u64, y: u64| #[trigger] leq(x, y) && #[trigger] leq(y, x) implies x == y by {}
    assert forall|x: u64, y: u64| #[trigger] leq(x, y) || #[trigger] leq(y, x) by {}
    assert forall|x: u64, y: u64, z: u64|
        #[trigger] leq(x, y) && #[trigger] leq(y, z) implies leq(x, z) by {}
}

/// The prices of the samples that succeeded, in sample order.
pub open spec fn successful_prices(samples: Seq<PriceSample>) -> Seq<u64>
    decreases samples.len(),
{
    if samples.len() == 0 {
        Seq::empty()
    } else {
        let rest = successful_prices(samples.drop_last());
        match samples.last().price_cents {
            Some(p) => rest.push(p),
            None => rest,
        }
    }
}

/// The median of a non-empty sequence of prices: the middle element of
/// the sorted rearrangement, or, for an even count, the mean of the two
/// middle elements rounded down.
pub open spec fn median_spec(prices: Seq<u64>) -> u64
    recommends
        prices.len() > 0,
{
    let sorted = prices.sort_by(price_le());
    let n = prices.len() as int;
    if n % 2 == 1 {
        sorted[n / 2]
    } else {
        ((sorted[n / 2 - 1] + sorted[n / 2]) / 2) as u64
    }
}

/// The aggregate of one cycle: the median of the successful samples, or
/// the sentinel `0` when there are none.
pub open spec fn aggregate_spec(samples: Seq<PriceSample>) -> u64 {
    if successful_prices(samples).len() == 0 {
        0
    } else {
        median_spec(successful_prices(samples))
    }
}

/// Sort prices ascending by repeatedly extracting a least element.
fn sort_prices(input: &Vec<u64>) -> (r: Vec<u64>)
    ensures
        r@ == input@.sort_by(price_le()),
        r@.len() == input@.len(),
        r@.to_multiset() == input@.to_multiset(),
{
    let mut work: Vec<u64> = Vec::new();
    let mut i: usize = 0;
    while i < input.len()
        invariant
            i <= input@.len(),
            work@ == input@.take(i as int),
        decreases input@.len() - i,
    {
        work.push(input[i]);
        proof {
            assert(input@.take(i + 1) =~= input@.take(i as int).push(input@[i as int]));
        }
        i = i + 1;
    }
    proof {
        assert(input@.take(input@.len() as int) =~= input@);
    }
    let mut out: Vec<u64> = Vec::new();
    while work.len() > 0
        invariant
            out@.to_multiset().add(work@.to_multiset()) == input@.to_multiset(),
            out@.len() + work@.len() == input@.len(),
            sorted_by(out@, price_le()),
            forall|a: int, b: int|
                0 <= a < out@.len() && 0 <= b < work@.len() ==> out@[a] <= work@[b],
        decreases work@.len(),
    {
        let mut m: usize = 0;
        let mut k: usize = 1;
        while k < work.len()
            invariant
                0 < work@.len(),
                m < k,
                k <= work@.len(),
                forall|t: int| 0 <= t < k ==> work@[m as int] <= work@[t],
            decreases work@.len() - k,
        {
            if work[k] < work[m] {
                m = k;
            }
            k = k + 1;
        }
        let ghost prev_out = out@;
        let ghost prev_work = work@;
        let x = work.remove(m);
        out.push(x);
        proof {
            assert(prev_work.contains(prev_work[m as int]));
            assert(work@.to_multiset() =~= prev_work.to_multiset().remove(x));
            assert(out@.to_multiset().add(work@.to_multiset())
                =~= prev_out.to_multiset().add(prev_work.to_multiset()));
            prev_work.remove_ensures(m as int);
            assert forall|a: int, b: int|
                0 <= a < out@.len() && 0 <= b < work@.len() implies out@[a] <= work@[b] by {
                assert(work@[b] == if b < m { prev_work[b] } else { prev_work[b + 1] });
                assert(x <= work@[b]);
                if a < prev_out.len() {
                    assert(out@[a] == prev_out[a]);
                    assert(prev_out[a] <= prev_work[m as int]);
                } else {
                    assert(out@[a] == x);
                }
            }
            assert forall|a: int, b: int|
                0 <= a < b < out@.len() implies price_le()(out@[a], out@[b]) by {
                if b < prev_out.len() {
                    assert(price_le()(prev_out[a], prev_out[b]));
                } else {
                    assert(out@[b] == x);
                    assert(prev_out[a] <= prev_work[m as int]);
                }
            }
        }
    }
    proof {
        assert forall|p: u64| #[trigger] work@.to_multiset().count(p) == 0 by {
            assert(!work@.contains(p));
        }
        assert(work@.to_multiset() =~= Multiset::<u64>::empty());
        assert(out@.to_multiset() =~= input@.to_multiset());
        lemma_price_le_total_ordering();
        input@.lemma_sort_by_ensures(price_le());
        lemma_sorted_unique(out@, input@.sort_by(price_le()), price_le());
        assert(out@ =~= input@.sort_by(price_le()));
        assert(input@.sort_by(price_le()).to_multiset().len() == input@.to_multiset().len());
    }
    out
}

/// The median of the given prices, or `None` when there are none.
pub fn calculate_median_price(prices: &Vec<u64>) -> (r: Option<u64>)
    ensures
        r is Some <==> prices@.len() > 0,
        prices@.len() > 0 ==> r == Some(median_spec(prices@)),
{
    if prices.len() == 0 {
        return None;
    }
    let sorted = sort_prices(prices);
    let n = sorted.len();
    if n % 2 == 1 {
        Some(sorted[n / 2])
    } else {
        let low = sorted[n / 2 - 1];
        let high = sorted[n / 2];
        let mid: u128 = ((low as u128) + (high as u128)) / 2;
        Some(mid as u64)
    }
}

/// Aggregate one cycle's samples: the median of the successful ones,
/// the sentinel `0` when every source failed.
pub fn aggregate_price(samples: &Vec<PriceSample>) -> (r: u64)
    ensures
        r == aggregate_spec(samples@),
{
    let mut vals: Vec<u64> = Vec::new();
    let mut i: usize = 0;
    while i < samples.len()
        invariant
            i <= samples@.len(),
            vals@ == successful_prices(samples@.take(i as int)),
        decreases samples@.len() - i,
    {
        let sample = &samples[i];
        match sample.price_cents {
            Some(p) => vals.push(p),
            None => {}
        }
        proof {
            assert(samples@.take(i + 1).drop_last() =~= samples@.take(i as int));
            assert(samples@.take(i + 1).last() == samples@[i as int]);
        }
        i = i + 1;
    }
    proof {
        assert(samples@.take(samples@.len() as int) =~= samples@);
    }
    match calculate_median_price(&vals) {
        Some(m) => m,
        None => 0,
    }
}

/// Median aggregation does not depend on the order the samples came in:
/// any two arrangements of the same non-empty collection of prices have
/// the same median.
pub proof fn lemma_median_order_independent(a: Seq<u64>, b: Seq<u64>)
    requires
        a.to_multiset() == b.to_multiset(),
        a.len() > 0,
    ensures
        median_spec(a) == median_spec(b),
{
    lemma_price_le_total_ordering();
    a.lemma_sort_by_ensures(price_le());
    b.lemma_sort_by_ensures(price_le());
    lemma_sorted_unique(a.sort_by(price_le()), b.sort_by(price_le()), price_le());
    assert(a.to_multiset().len() == a.len());
    assert(b.to_multiset().len() == b.len());
    assert(a.sort_by(price_le()) =~= b.sort_by(price_le()));
}

/// Taking one sample out takes exactly its price, if it has one, out
/// of the successful prices.
proof fn lemma_successful_prices_remove(samples: Seq<PriceSample>, i: int)
    requires
        0 <= i < samples.len(),
    ensures
        samples[i].price_cents matches Some(p) ==> successful_prices(samples).to_multiset()
            == successful_prices(samples.remove(i)).to_multiset().insert(p),
        samples[i].price_cents is None ==> successful_prices(samples).to_multiset()
            == successful_prices(samples.remove(i)).to_multiset(),
    decreases samples.len(),
{
    if i == samples.len() - 1 {
        assert(samples.remove(i) =~= samples.drop_last());
    } else {
        let shorter = samples.drop_last();
        lemma_successful_prices_remove(shorter, i);
        assert(samples.remove(i).drop_last() =~= shorter.remove(i));
        assert(samples.remove(i).last() == samples.last());
        match (samples[i].price_cents, samples.last().price_cents) {
            (Some(p), Some(q)) => {
                assert(successful_prices(samples).to_multiset() == successful_prices(
                    shorter,
                ).to_multiset().insert(q));
                assert(successful_prices(samples.remove(i)).to_multiset()
                    == successful_prices(shorter.remove(i)).to_multiset().insert(q));
                assert(successful_prices(shorter.remove(i)).to_multiset().insert(q).insert(p)
                    =~= successful_prices(shorter.remove(i)).to_multiset().insert(p).insert(q));
            }
            _ => {}
        }
    }
}

/// The aggregate of a cycle does not depend on the order its samples
/// came in: two readings of the same sources, however arranged, give
/// the same price.
pub proof fn lemma_aggregate_order_independent(s1: Seq<PriceSample>, s2: Seq<PriceSample>)
    requires
        s1.to_multiset() == s2.to_multiset(),
    ensures
        aggregate_spec(s1) == aggregate_spec(s2),
{
    lemma_aggregate_order_independent_helper(s1, s2);
    lemma_successful_multiset_decides_aggregate(s1, s2);
}

/// The successful prices of two rearrangements hold the same multiset.
proof fn lemma_aggregate_order_independent_helper(s1: Seq<PriceSample>, s2: Seq<PriceSample>)
    requires
        s1.to_multiset() == s2.to_multiset(),
    ensures
        successful_prices(s1).to_multiset() == successful_prices(s2).to_multiset(),
    decreases s1.len(),
{
    assert(s1.to_multiset().len() == s1.len());
    assert(s2.to_multiset().len() == s2.len());
    if s1.len() == 0 {
    } else {
        let last = s1.last();
        assert(s1.contains(last));
        assert(s1.to_multiset().count(last) > 0);
        assert(s2.contains(last));
        let j = choose|j: int| 0 <= j < s2.len() && s2[j] == last;
        let shorter1 = s1.drop_last();
        let shorter2 = s2.remove(j);
        assert(shorter1 =~= s1.remove(s1.len() - 1));
        assert(shorter1.to_multiset() == s1.to_multiset().remove(last));
        assert(shorter2.to_multiset() == s2.to_multiset().remove(last));
        lemma_successful_prices_remove(s1, s1.len() - 1);
        lemma_successful_prices_remove(s2, j);
        lemma_aggregate_order_independent_helper(shorter1, shorter2);
    }
}

/// Samples whose successful prices hold the same multiset aggregate to
/// the same price.
proof fn lemma_successful_multiset_decides_aggregate(s1: Seq<PriceSample>, s2: Seq<PriceSample>)
    requires
        successful_prices(s1).to_multiset() == successful_prices(s2).to_multiset(),
    ensures
        aggregate_spec(s1) == aggregate_spec(s2),
{
    let v1 = successful_prices(s1);
    let v2 = successful_prices(s2);
    assert(v1.to_multiset().len() == v1.len());
    assert(v2.to_multiset().len() == v2.len());
    if v1.len() > 0 {
        lemma_median_order_independent(v1, v2);
    }
}

/// Total outage: when every sample carries the failure marker, the
/// aggregate price is the documented sentinel, zero.
pub proof fn lemma_total_outage_sentinel(samples: Seq<PriceSample>)
    requires
        forall|i: int| 0 <= i < samples.len() ==> samples[i].price_cents is None,
    ensures
        successful_prices(samples) == Seq::<u64>::empty(),
        aggregate_spec(samples) == 0,
    decreases samples.len(),
{
    if samples.len() > 0 {
        lemma_total_outage_sentinel(samples.drop_last());
        assert(samples.last().price_cents is None);
    }
}

/// Prices above this many whole dollars per bitcoin are rejected as
/// garbage rather than parsed.
pub const MAX_PRICE_DOLLARS: u64 = 1_000_000_000;

pub open spec fn is_ws_byte(b: u8) -> bool {
    b == 32 || b == 9 || b == 10 || b == 13
}

pub open spec fn is_digit_byte(b: u8) -> bool {
    48 <= b <= 57
}

/// The key as it stands in a JSON body: in double quotes.
pub open spec fn quoted(key: Seq<u8>) -> Seq<u8> {
    seq![34u8] + key + seq![34u8]
}

/// The first position at or after `from` where `pat` occurs in `s`.
pub open spec fn find_from(s: Seq<u8>, pat: Seq<u8>, from: int) -> Option<int>
    decreases s.len() - from,
{
    if pat.len() == 0 {
        Some(from)
    } else if from + pat.len() > s.len() {
        None
    } else if s.subrange(from, from + pat.len() as int) == pat {
        Some(from)
    } else {
        find_from(s, pat, from + 1)
    }
}

/// The first position at or after `from` that does not hold whitespace.
pub open spec fn skip_ws_from(s: Seq<u8>, from: int) -> int
    decreases s.len() - from,
{
    if 0 <= from < s.len() && is_ws_byte(s[from]) {
        skip_ws_from(s, from + 1)
    } else {
        from
    }
}

/// The first position at or after `from` that does not hold a digit.
pub open spec fn digits_end(s: Seq<u8>, from: int) -> int
    decreases s.len() - from,
{
    if 0 <= from < s.len() && is_digit_byte(s[from]) {
        digits_end(s, from + 1)
    } else {
        from
    }
}

/// The value of the digit run `s[from..end)`.
pub open spec fn digits_val(s: Seq<u8>, from: int, end: int) -> int
    decreases end - from,
{
    if from < end {
        digits_val(s, from, end - 1) * 10 + (s[end - 1] - 48)
    } else {
        0
    }
}

/// Cents from the fraction digits `s[from..end)`: the first two of
/// them, rounded half up by the third; digits past the third are
/// ignored, which for a run of at least three digits is exactly
/// rounding half up to the cent.
pub open spec fn frac_cents(s: Seq<u8>, from: int, end: int) -> int {
    let tens: int = if from < end {
        (s[from] - 48) * 10
    } else {
        0
    };
    let ones: int = if from + 1 < end {
        (s[from + 1] - 48) as int
    } else {
        0
    };
    let round_up: int = if from + 2 < end && s[from + 2] >= 53 {
        1
    } else {
        0
    };
    tens + ones + round_up
}

/// The price number at `from`, in cents: one or more integer digits,
/// then optionally a dot and one or more fraction digits. `None` when
/// no digit stands at `from`, when a dot is not followed by a digit,
/// or when the integer part exceeds `MAX_PRICE_DOLLARS`.
pub open spec fn number_cents_at(s: Seq<u8>, from: int) -> Option<int> {
    let int_end = digits_end(s, from);
    if int_end == from {
        None
    } else {
        let dollars = digits_val(s, from, int_end);
        if dollars > MAX_PRICE_DOLLARS {
            None
        } else if int_end < s.len() && s[int_end] == 46 {
            let frac_end = digits_end(s, int_end + 1);
            if frac_end == int_end + 1 {
                None
            } else {
                Some(dollars * 100 + frac_cents(s, int_end + 1, frac_end))
            }
        } else {
            Some(dollars * 100)
        }
    }
}

/// The price a body holds for a key: at the first occurrence of the
/// quoted key, after optional whitespace, a colon, optional whitespace,
/// at most one opening bracket and at most one opening quote (the
/// configured sources answer with bare numbers, quoted numbers, or an
/// array whose first element is a quoted number), the number in cents.
pub open spec fn parse_price_spec(body: Seq<u8>, key: Seq<u8>) -> Option<u64> {
    match find_from(body, quoted(key), 0) {
        None => None,
        Some(at) => {
            let j0 = skip_ws_from(body, at + quoted(key).len());
            if !(j0 < body.len() && body[j0] == 58) {
                None
            } else {
                let j1 = skip_ws_from(body, j0 + 1);
                let j2 = if j1 < body.len() && body[j1] == 91 {
                    skip_ws_from(body, j1 + 1)
                } else {
                    j1
                };
                let j3 = if j2 < body.len() && body[j2] == 34 {
                    j2 + 1
                } else {
                    j2
                };
                match number_cents_at(body, j3) {
                    Some(c) => Some(c as u64),
                    None => None,
                }
            }
        }
    }
}

/// A digit run's value never shrinks as the run extends, and is never
/// negative.
proof fn lemma_digits_val_monotonic(s: Seq<u8>, from: int, e1: int, e2: int)
    requires
        from <= e1 <= e2,
        forall|t: int| from <= t < e2 ==> is_digit_byte(s[t]),
    ensures
        0 <= digits_val(s, from, e1) <= digits_val(s, from, e2),
    decreases e2 - e1,
{
    lemma_digits_val_nonneg(s, from, e1);
    if e1 < e2 {
        lemma_digits_val_monotonic(s, from, e1, e2 - 1);
        lemma_digits_val_nonneg(s, from, e2 - 1);
    }
}

proof fn lemma_digits_val_nonneg(s: Seq<u8>, from: int, end: int)
    requires
        forall|t: int| from <= t < end ==> is_digit_byte(s[t]),
    ensures
        digits_val(s, from, end) >= 0,
    decreases end - from,
{
    if from < end {
        lemma_digits_val_nonneg(s, from, end - 1);
    }
}

/// Every position `find_from` answers with carries the pattern and
/// lies within the text.
proof fn lemma_find_from_in_range(s: Seq<u8>, pat: Seq<u8>, from: int)
    requires
        0 <= from,
        pat.len() > 0,
    ensures
        find_from(s, pat, from) matches Some(at) ==> from <= at
            && at + pat.len() <= s.len()
            && s.subrange(at, at + pat.len() as int) == pat,
    decreases s.len() - from,
{
    if from + pat.len() > s.len() {
    } else if s.subrange(from, from + pat.len() as int) == pat {
    } else {
        lemma_find_from_in_range(s, pat, from + 1);
    }
}

/// `skip_ws_from` stays within the text.
proof fn lemma_skip_ws_in_range(s: Seq<u8>, from: int)
    requires
        0 <= from <= s.len(),
    ensures
        from <= skip_ws_from(s, from) <= s.len(),
    decreases s.len() - from,
{
    if from < s.len() && is_ws_byte(s[from]) {
        lemma_skip_ws_in_range(s, from + 1);
    }
}

/// `digits_end` stays within the text.
proof fn lemma_digits_end_in_range(s: Seq<u8>, from: int)
    requires
        0 <= from <= s.len(),
    ensures
        from <= digits_end(s, from) <= s.len(),
    decreases s.len() - from,
{
    if from < s.len() && is_digit_byte(s[from]) {
        lemma_digits_end_in_range(s, from + 1);
    }
}

/// Every byte of the run `[from, digits_end(s, from))` is a digit.
proof fn lemma_digits_end_all_digits(s: Seq<u8>, from: int)
    requires
        0 <= from <= s.len(),
    ensures
        forall|t: int| from <= t < digits_end(s, from) ==> is_digit_byte(s[t]),
    decreases s.len() - from,
{
    if from < s.len() && is_digit_byte(s[from]) {
        lemma_digits_end_all_digits(s, from + 1);
    }
}

/// Whether `pat` stands at position `at` of `s`.
fn bytes_match_at(s: &[u8], pat: &[u8], at: usize) -> (r: bool)
    requires
        at + pat@.len() <= s@.len(),
    ensures
        r <==> s@.subrange(at as int, at + pat@.len() as int) == pat@,
{
    let n = s.len();
    let m = pat.len();
    let mut j: usize = 0;
    while j < m
        invariant
            n == s@.len(),
            m == pat@.len(),
            at + m <= n,
            j <= m,
            forall|t: int| 0 <= t < j ==> s@[at + t] == pat@[t],
        decreases m - j,
    {
        if s[at + j] != pat[j] {
            proof {
                assert(s@.subrange(at as int, at + pat@.len() as int)[j as int] == s@[at + j]);
            }
            return false;
        }
        j = j + 1;
    }
    proof {
        assert(s@.subrange(at as int, at + pat@.len() as int) =~= pat@);
    }
    true
}

/// The first occurrence of `pat` in `s`, scanning left to right.
fn find_pattern(s: &[u8], pat: &[u8]) -> (r: Option<usize>)
    ensures
        find_from(s@, pat@, 0) == match r {
            Some(i) => Some(i as int),
            None => None::<int>,
        },
{
    let n = s.len();
    let m = pat.len();
    if m > n {
        return None;
    }
    let mut i: usize = 0;
    while i <= n - m
        invariant
            m <= n,
            n == s@.len(),
            m == pat@.len(),
            i <= n - m + 1,
            find_from(s@, pat@, 0) == find_from(s@, pat@, i as int),
        decreases n - i,
    {
        if bytes_match_at(s, pat, i) {
            return Some(i);
        }
        proof {
            if pat@.len() == 0 {
                assert(s@.subrange(i as int, i as int) =~= pat@);
            }
        }
        i = i + 1;
    }
    None
}

/// The first non-whitespace position at or after `from`.
fn skip_ws(s: &[u8], from: usize) -> (r: usize)
    requires
        from <= s@.len(),
    ensures
        r == skip_ws_from(s@, from as int),
        from <= r <= s@.len(),
{
    let mut i = from;
    while i < s.len() && (s[i] == 32 || s[i] == 9 || s[i] == 10 || s[i] == 13)
        invariant
            from <= i <= s@.len(),
            skip_ws_from(s@, from as int) == skip_ws_from(s@, i as int),
        decreases s@.len() - i,
    {
        i = i + 1;
    }
    i
}

/// The first non-digit position at or after `from`.
fn scan_digits(s: &[u8], from: usize) -> (r: usize)
    requires
        from <= s@.len(),
    ensures
        r == digits_end(s@, from as int),
        from <= r <= s@.len(),
{
    let mut i = from;
    while i < s.len() && 48 <= s[i] && s[i] <= 57
        invariant
            from <= i <= s@.len(),
            digits_end(s@, from as int) == digits_end(s@, i as int),
        decreases s@.len() - i,
    {
        i = i + 1;
    }
    i
}

/// Parse the price number standing at `from`, in cents.
fn parse_number_cents(s: &[u8], from: usize) -> (r: Option<u64>)
    requires
        from <= s@.len(),
    ensures
        number_cents_at(s@, from as int) is Some <==> r is Some,
        number_cents_at(s@, from as int) matches Some(c) ==> r == Some(c as u64),
{
    let int_end = scan_digits(s, from);
    if int_end == from {
        return None;
    }
    proof {
        lemma_digits_end_all_digits(s@, from as int);
    }
    let mut j = from;
    let mut dollars: u64 = 0;
    while j < int_end
        invariant
            from <= j <= int_end,
            int_end <= s@.len(),
            int_end == digits_end(s@, from as int),
            forall|t: int| from <= t < int_end ==> is_digit_byte(s@[t]),
            dollars == digits_val(s@, from as int, j as int),
            dollars <= MAX_PRICE_DOLLARS,
        decreases int_end - j,
    {
        let d = s[j] - 48;
        let next: u64 = dollars * 10 + (d as u64);
        if next > MAX_PRICE_DOLLARS {
            proof {
                lemma_digits_val_monotonic(s@, from as int, j + 1, int_end as int);
            }
            return None;
        }
        dollars = next;
        j = j + 1;
    }
    let whole_cents: u64 = dollars * 100;
    if int_end < s.len() && s[int_end] == 46 {
        let frac_start = int_end + 1;
        let frac_end = scan_digits(s, frac_start);
        if frac_end == frac_start {
            return None;
        }
        proof {
            lemma_digits_end_all_digits(s@, frac_start as int);
        }
        let frac_len = frac_end - frac_start;
        let tens: u64 = ((s[frac_start] - 48) as u64) * 10;
        let ones: u64 = if frac_len > 1 {
            (s[frac_start + 1] - 48) as u64
        } else {
            0
        };
        let round_up: u64 = if frac_len > 2 && s[frac_start + 2] >= 53 {
            1
        } else {
            0
        };
        Some(whole_cents + tens + ones + round_up)
    } else {
        Some(whole_cents)
    }
}

/// Parse a feed's response body: the price in cents that stands under
/// the given key, by the rule of `parse_price_spec`; `None` for a body
/// that does not hold one, which drops the source from the cycle.
pub fn parse_price_cents(body: &[u8], key: &[u8]) -> (r: Option<u64>)
    ensures
        r == parse_price_spec(body@, key@),
{
    let mut quoted_key: Vec<u8> = Vec::new();
    quoted_key.push(34);
    let mut i: usize = 0;
    while i < key.len()
        invariant
            i <= key@.len(),
            quoted_key@ == seq![34u8] + key@.take(i as int),
        decreases key@.len() - i,
    {
        quoted_key.push(key[i]);
        proof {
            assert(seq![34u8] + key@.take(i + 1) =~= (seq![34u8] + key@.take(i as int)).push(
                key@[i as int],
            ));
        }
        i = i + 1;
    }
    quoted_key.push(34);
    proof {
        assert(quoted_key@ =~= quoted(key@));
    }
    let n = body.len();
    let at = match find_pattern(body, quoted_key.as_slice()) {
        Some(at) => at,
        None => {
            return None;
        }
    };
    proof {
        lemma_find_from_in_range(body@, quoted(key@), 0);
    }
    let j0 = skip_ws(body, at + quoted_key.len());
    if !(j0 < body.len() && body[j0] == 58) {
        return None;
    }
    let j1 = skip_ws(body, j0 + 1);
    let j2 = if j1 < body.len() && body[j1] == 91 {
        skip_ws(body, j1 + 1)
    } else {
        j1
    };
    let j3 = if j2 < body.len() && body[j2] == 34 {
        j2 + 1
    } else {
        j2
    };
    parse_number_cents(body, j3)
}

/// One configured price feed: its name, where the caller fetches it,
/// and the key of its JSON answer under which the USD price stands.
#[derive(Clone, Debug)]
pub struct PriceFeed {
    pub name: String,
    pub url: String,
    pub key: Vec<u8>,
}

fn make_feed(name: &str, url: &str, key: &str) -> (r: PriceFeed)
    ensures
        r.name@ == name@,
        r.url@ == url@,
        r.key@ == key.spec_bytes(),
{
    PriceFeed {
        name: name.to_owned(),
        url: url.to_owned(),
        key: vstd::slice::slice_to_vec(key.as_bytes()),
    }
}

/// The configured price sources, one parse key each; adding a source
/// here is all it takes for the aggregator to use it.
pub fn set_price_feeds() -> (feeds: Vec<PriceFeed>)
    ensures
        feeds@.len() == 5,
        feeds@[0].key@ == "last".spec_bytes(),
        feeds@[1].key@ == "usd".spec_bytes(),
        feeds@[2].key@ == "amount".spec_bytes(),
        feeds@[3].key@ == "c".spec_bytes(),
        feeds@[4].key@ == "last".spec_bytes(),
{
    let mut feeds: Vec<PriceFeed> = Vec::new();
    feeds.push(
        make_feed("Bitstamp", "https://www.bitstamp.net/api/v2/ticker/btcusd/", "last"),
    );
    feeds.push(
        make_feed(
            "CoinGecko",
            "https://api.coingecko.com/api/v3/simple/price?ids=bitcoin&vs_currencies=usd",
            "usd",
        ),
    );
    feeds.push(
        make_feed("Coinbase", "https://api.coinbase.com/v2/prices/spot?currency=USD", "amount"),
    );
    feeds.push(
        make_feed("Kraken", "https://api.kraken.com/0/public/Ticker?pair=XBTUSD", "c"),
    );
    feeds.push(
        make_feed("Gemini", "https://api.gemini.com/v1/pubticker/btcusd", "last"),
    );
    feeds
}

} // verus!
