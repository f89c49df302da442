//! Exact monetary arithmetic for the peg.
//!
//! A bitcoin amount is an integer count of satoshis; it is never held as a
//! fraction. A USD amount is a signed count of fixed-point units chosen so
//! fine that converting a whole number of satoshis to USD at a given price
//! is exact: one dollar is `100_000_000_000` units, so the USD value of
//! `sats` satoshis at `price_cents` cents per bitcoin is exactly
//! `10 * sats * price_cents` units. Converting a USD amount back to
//! millisatoshis divides by the price and rounds to the nearest
//! millisatoshi, ties away from zero; starting from whole satoshis the
//! round trip is exact.
//!
//! Prices are integer counts of cents per whole bitcoin; `0` is the
//! sentinel of the price aggregator and is rejected wherever a conversion
//! would divide by it.

use vstd::prelude::*;
use vstd::arithmetic::div_mod::lemma_fundamental_div_mod_converse;
use vstd::arithmetic::mul::lemma_mul_inequality;
use vstd::arithmetic::mul::lemma_mul_nonnegative;
use vstd::string::StringExecFns;

verus! {

/// USD units that make up one dollar.
pub const USD_UNITS_PER_USD: i64 = 100_000_000_000;

/// USD units that make up one cent.
pub const USD_UNITS_PER_CENT: i64 = 1_000_000_000;

/// An exact bitcoin amount: an integer count of satoshis.
#[derive(Clone, Copy, PartialEq, Eq, Structural, Debug)]
pub struct Bitcoin {
    pub sats: u64,
}

/// An exact USD amount: a signed integer count of fixed-point units,
/// `USD_UNITS_PER_USD` of them to the dollar.
#[derive(Clone, Copy, PartialEq, Eq, Structural, Debug)]
pub struct USD {
    pub units: i64,
}

/// USD units of `sats` satoshis at `price_cents` cents per bitcoin:
/// `sats / 100_000_000 * price` dollars, made exact by the choice of unit.
pub open spec fn units_of_sats(sats: int, price_cents: int) -> int {
    10 * sats * price_cents
}

/// Millisatoshis bought by `units` USD units at `price_cents` cents per
/// bitcoin, rounded to the nearest millisatoshi, ties up. For
/// non-negative `units` and positive `price_cents` this equals
/// `100 * units / price_cents` rounded half up.
pub open spec fn msats_of_units(units: int, price_cents: int) -> int {
    (200 * units + price_cents) / (2 * price_cents)
}

impl Bitcoin {
    pub fn from_sats(sats: u64) -> (r: Bitcoin)
        ensures
            r.sats == sats,
    {
        Bitcoin { sats }
    }

    /// The same amount as millisatoshis.
    pub fn to_msats(&self) -> (r: u64)
        requires
            self.sats * 1000 <= u64::MAX,
        ensures
            r == self.sats * 1000,
    {
        self.sats * 1000
    }

    /// The amount as text, whole bitcoins and all eight satoshi
    /// decimals.
    pub fn formatted(&self) -> (s: String)
        ensures
            s@ == btc_display(self.sats as int),
    {
        let mut s = String::new();
        append_decimal(&mut s, self.sats / 100_000_000);
        s.append(".");
        append_padded(&mut s, self.sats % 100_000_000, 8);
        proof {
            reveal_strlit(".");
            assert(s@ =~= btc_display(self.sats as int));
        }
        s
    }
}

impl USD {
    pub fn from_units(units: i64) -> (r: USD)
        ensures
            r.units == units,
    {
        USD { units }
    }

    /// A whole number of cents as a USD amount.
    pub fn from_cents(cents: i64) -> (r: USD)
        requires
            cents * USD_UNITS_PER_CENT <= i64::MAX,
            i64::MIN <= cents * USD_UNITS_PER_CENT,
        ensures
            r.units == cents * USD_UNITS_PER_CENT,
    {
        USD { units: cents * USD_UNITS_PER_CENT }
    }

    /// The USD value of a bitcoin amount at the given price; exact.
    pub fn from_bitcoin(amount: Bitcoin, price_cents: u64) -> (r: USD)
        requires
            units_of_sats(amount.sats as int, price_cents as int) <= i64::MAX,
        ensures
            r.units == units_of_sats(amount.sats as int, price_cents as int),
            r.units >= 0,
    {
        proof {
            lemma_mul_nonnegative(10 * (amount.sats as int), price_cents as int);
        }
        let wide: u128 = 10u128 * (amount.sats as u128) * (price_cents as u128);
        USD { units: wide as i64 }
    }

    /// The amount as millisatoshis at the given price, rounded to the
    /// nearest millisatoshi, ties up.
    pub fn to_msats(self, price_cents: u64) -> (r: u64)
        requires
            self.units >= 0,
            price_cents > 0,
            msats_of_units(self.units as int, price_cents as int) <= u64::MAX,
        ensures
            r == msats_of_units(self.units as int, price_cents as int),
    {
        let numerator: u128 = 200u128 * (self.units as u128) + (price_cents as u128);
        let denominator: u128 = 2u128 * (price_cents as u128);
        let q: u128 = numerator / denominator;
        q as u64
    }

    /// Exact addition.
    pub fn add(self, other: USD) -> (r: USD)
        requires
            i64::MIN <= self.units + other.units <= i64::MAX,
        ensures
            r.units == self.units + other.units,
    {
        USD { units: self.units + other.units }
    }

    /// Exact subtraction.
    pub fn sub(self, other: USD) -> (r: USD)
        requires
            i64::MIN <= self.units - other.units <= i64::MAX,
        ensures
            r.units == self.units - other.units,
    {
        USD { units: self.units - other.units }
    }

    /// Exact multiplication by an integer scalar.
    pub fn mul_scalar(self, k: i64) -> (r: USD)
        requires
            i64::MIN <= self.units * k <= i64::MAX,
        ensures
            r.units == self.units * k,
    {
        let wide: i128 = (self.units as i128) * (k as i128);
        USD { units: wide as i64 }
    }

    /// Division by a positive integer scalar, rounded toward negative
    /// infinity.
    pub fn div_scalar(self, k: i64) -> (r: USD)
        requires
            k > 0,
        ensures
            r.units == self.units as int / k as int,
    {
        let magnitude: u64 = if self.units < 0 {
            (-(self.units as i128)) as u64
        } else {
            self.units as u64
        };
        let q: u64 = magnitude / (k as u64);
        let rem: u64 = magnitude % (k as u64);
        proof {
            vstd::arithmetic::div_mod::lemma_fundamental_div_mod(magnitude as int, k as int);
        }
        if self.units >= 0 {
            USD { units: q as i64 }
        } else if rem == 0 {
            proof {
                assert(self.units as int == (-(q as int)) * (k as int) + 0) by (nonlinear_arith)
                    requires
                        magnitude == q * k,
                        self.units == -(magnitude as int),
                ;
                lemma_fundamental_div_mod_converse(self.units as int, k as int, -(q as int), 0);
            }
            USD { units: (-(q as i128)) as i64 }
        } else {
            proof {
                assert(q <= 0x4000_0000_0000_0000) by (nonlinear_arith)
                    requires
                        magnitude == q * k + rem,
                        rem > 0,
                        rem < k,
                        magnitude <= 0x8000_0000_0000_0000,
                ;
                assert(self.units as int == (-(q as int) - 1) * (k as int) + (k - rem))
                    by (nonlinear_arith)
                    requires
                        magnitude == q * k + rem,
                        rem < k,
                        self.units == -(magnitude as int),
                ;
                lemma_fundamental_div_mod_converse(
                    self.units as int,
                    k as int,
                    -(q as int) - 1,
                    k - rem,
                );
            }
            USD { units: ((-(q as i128)) - 1) as i64 }
        }
    }

    /// Numeric order of two amounts.
    pub fn less_than(&self, other: &USD) -> (r: bool)
        ensures
            r <==> self.units < other.units,
    {
        self.units < other.units
    }

    /// The amount as text, rounded to two decimals, ties away from
    /// zero.
    pub fn formatted(&self) -> (s: String)
        ensures
            s@ == usd_display(self.units as int),
    {
        let magnitude: u64 = if self.units < 0 {
            (-(self.units as i128)) as u64
        } else {
            self.units as u64
        };
        let cents: u64 = (magnitude + 500_000_000) / 1_000_000_000;
        let mut s = String::new();
        if self.units < 0 && cents > 0 {
            s.append("-");
        }
        append_decimal(&mut s, cents / 100);
        s.append(".");
        append_padded(&mut s, cents % 100, 2);
        proof {
            reveal_strlit("-");
            reveal_strlit(".");
            assert(s@ =~= usd_display(self.units as int));
        }
        s
    }
}

/// The character of one decimal digit.
pub open spec fn digit_char(d: int) -> char {
    if d == 0 {
        '0'
    } else if d == 1 {
        '1'
    } else if d == 2 {
        '2'
    } else if d == 3 {
        '3'
    } else if d == 4 {
        '4'
    } else if d == 5 {
        '5'
    } else if d == 6 {
        '6'
    } else if d == 7 {
        '7'
    } else if d == 8 {
        '8'
    } else {
        '9'
    }
}

/// The decimal digits of a non-negative number, most significant
/// first; a lone zero for zero.
pub open spec fn decimal_digits(n: int) -> Seq<char>
    decreases n,
{
    if n < 10 {
        seq![digit_char(n)]
    } else {
        decimal_digits(n / 10).push(digit_char(n % 10))
    }
}

/// `width` decimal digits of `n`, zero-padded on the left.
pub open spec fn padded_digits(n: int, width: nat) -> Seq<char>
    decreases width,
{
    if width == 0 {
        Seq::empty()
    } else {
        padded_digits(n / 10, (width - 1) as nat).push(digit_char(n % 10))
    }
}

/// A USD amount as text: rounded to the nearest cent, ties away from
/// zero, with two decimals always; a minus sign only when something
/// negative is left after rounding.
pub open spec fn usd_display(units: int) -> Seq<char> {
    let magnitude = if units < 0 {
        -units
    } else {
        units
    };
    let cents = (magnitude + 500_000_000) / 1_000_000_000;
    let sign: Seq<char> = if units < 0 && cents > 0 {
        seq!['-']
    } else {
        Seq::empty()
    };
    sign + decimal_digits(cents / 100) + seq!['.'] + padded_digits(cents % 100, 2)
}

/// A bitcoin amount as text: whole bitcoins, a dot, and all eight
/// satoshi decimals.
pub open spec fn btc_display(sats: int) -> Seq<char> {
    decimal_digits(sats / 100_000_000) + seq!['.'] + padded_digits(sats % 100_000_000, 8)
}

/// One decimal digit as text.
fn digit_str(d: u64) -> (r: &'static str)
    requires
        d < 10,
    ensures
        r@ == seq![digit_char(d as int)],
{
    proof {
        reveal_strlit("0");
        reveal_strlit("1");
        reveal_strlit("2");
        reveal_strlit("3");
        reveal_strlit("4");
        reveal_strlit("5");
        reveal_strlit("6");
        reveal_strlit("7");
        reveal_strlit("8");
        reveal_strlit("9");
    }
    match d {
        0 => "0",
        1 => "1",
        2 => "2",
        3 => "3",
        4 => "4",
        5 => "5",
        6 => "6",
        7 => "7",
        8 => "8",
        _ => "9",
    }
}

/// Append the decimal digits of `n`.
fn append_decimal(s: &mut String, n: u64)
    ensures
        final(s)@ == old(s)@ + decimal_digits(n as int),
    decreases n,
{
    if n < 10 {
        s.append(digit_str(n));
    } else {
        append_decimal(s, n / 10);
        s.append(digit_str(n % 10));
        proof {
            assert((old(s)@ + decimal_digits(n as int / 10)) + seq![digit_char(n as int % 10)]
                =~= old(s)@ + decimal_digits(n as int));
        }
    }
}

/// Append `width` zero-padded decimal digits of `n`.
fn append_padded(s: &mut String, n: u64, width: u64)
    ensures
        final(s)@ == old(s)@ + padded_digits(n as int, width as nat),
    decreases width,
{
    if width > 0 {
        append_padded(s, n / 10, width - 1);
        s.append(digit_str(n % 10));
        proof {
            assert((old(s)@ + padded_digits(n as int / 10, (width - 1) as nat)) + seq![
                digit_char(n as int % 10),
            ] =~= old(s)@ + padded_digits(n as int, width as nat));
        }
    } else {
        proof {
            assert(old(s)@ + padded_digits(n as int, 0) =~= old(s)@);
        }
    }
}

/// Converting satoshis to USD at a price and that USD amount back to
/// millisatoshis at the same price returns exactly the satoshis'
/// millisatoshi value: the rounding of each direction cancels.
pub proof fn lemma_usd_round_trip(sats: u64, price_cents: u64)
    requires
        price_cents > 0,
        units_of_sats(sats as int, price_cents as int) <= i64::MAX,
    ensures
        msats_of_units(units_of_sats(sats as int, price_cents as int), price_cents as int)
            == sats * 1000,
{
    let s = sats as int;
    let p = price_cents as int;
    let u = units_of_sats(s, p);
    assert(200 * u + p == (1000 * s) * (2 * p) + p) by (nonlinear_arith)
        requires
            u == 10 * s * p,
    ;
    lemma_fundamental_div_mod_converse(200 * u + p, 2 * p, 1000 * s, p);
}

/// `units_of_sats` grows with the satoshi amount: a side's balance never
/// values above the whole channel.
pub proof fn lemma_units_of_sats_monotonic(sats1: int, sats2: int, price_cents: int)
    requires
        0 <= sats1 <= sats2,
        0 <= price_cents,
    ensures
        0 <= units_of_sats(sats1, price_cents) <= units_of_sats(sats2, price_cents),
{
    lemma_mul_nonnegative(10 * sats1, price_cents);
    lemma_mul_inequality(10 * sats1, 10 * sats2, price_cents);
}

} // verus!
