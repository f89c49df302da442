//! The reconciliation cycle of a stable channel.
//!
//! Once per cycle the controller is handed the freshly aggregated price
//! and the channel's current snapshot, recomputes both parties' balances,
//! classifies the deviation of the receiver's USD value from the peg
//! target, and answers with the single action of the cycle: do nothing,
//! wait for the counterparty, pay the difference, or refuse to act while
//! the risk level stands above its bound. The caller performs the payment
//! and the reads; everything decided here is a pure function of the
//! arguments.

use vstd::prelude::*;
use crate::money::Bitcoin;
use crate::money::USD;
use crate::money::msats_of_units;
use crate::money::units_of_sats;
use crate::money::lemma_units_of_sats_monotonic;

verus! {

/// A risk level above this bound blocks automatic payments until
/// external logic clears it.
pub const MAX_RISK_LEVEL: u32 = 100;

/// What a cycle reads of the live channel: the listed fields of the
/// channel's current state, as plain values.
#[derive(Clone, Debug)]
pub struct ChannelSnapshot {
    pub channel_id: Vec<u8>,
    pub channel_value_sats: u64,
    pub outbound_capacity_msat: u64,
    pub unspendable_punishment_reserve: Option<u64>,
    pub counterparty_node_id: Vec<u8>,
}

/// The peg state of one stable channel, owned and mutated by the
/// controller alone.
#[derive(Clone, Debug)]
pub struct StableChannel {
    pub channel_id: Vec<u8>,
    /// True when this node is the stable receiver, false when it is the
    /// stable provider.
    pub is_stable_receiver: bool,
    pub counterparty: Vec<u8>,
    /// The peg target: the USD value the receiver's balance should hold.
    pub expected_usd: USD,
    pub expected_btc: Bitcoin,
    pub stable_receiver_btc: Bitcoin,
    pub stable_provider_btc: Bitcoin,
    pub stable_receiver_usd: USD,
    pub stable_provider_usd: USD,
    /// Escalation counter; never changed here, driven by external logic.
    pub risk_level: u32,
    /// Seconds timestamp of the last evaluation, kept by the caller.
    pub timestamp: u64,
    /// State directory handed in at creation.
    pub sc_dir: String,
    /// The price stored by the last cycle, in cents per bitcoin.
    pub latest_price: u64,
}

/// The one action of a reconciliation cycle.
#[derive(Clone, Copy, PartialEq, Eq, Structural, Debug)]
pub enum StabilityAction {
    /// Deviation under the threshold: leave the channel alone.
    DoNothing,
    /// The counterparty owes the correction: issue nothing, watch.
    Wait,
    /// Pay the counterparty this many millisatoshis.
    Pay { amount_msat: u64 },
    /// Risk level above `MAX_RISK_LEVEL`: no payment, cleared externally.
    HighRisk,
}

impl StableChannel {
    /// The peg state of a channel that has just become active: balances
    /// and risk level start at zero and the first cycle fills them in.
    pub fn new(
        channel_id: Vec<u8>,
        counterparty: Vec<u8>,
        is_stable_receiver: bool,
        expected_usd: USD,
        sc_dir: String,
        latest_price: u64,
    ) -> (sc: StableChannel)
        ensures
            sc.channel_id == channel_id,
            sc.counterparty == counterparty,
            sc.is_stable_receiver == is_stable_receiver,
            sc.expected_usd == expected_usd,
            sc.expected_btc.sats == 0,
            sc.stable_receiver_btc.sats == 0,
            sc.stable_provider_btc.sats == 0,
            sc.stable_receiver_usd.units == 0,
            sc.stable_provider_usd.units == 0,
            sc.risk_level == 0,
            sc.timestamp == 0,
            sc.sc_dir == sc_dir,
            sc.latest_price == latest_price,
    {
        StableChannel {
            channel_id,
            is_stable_receiver,
            counterparty,
            expected_usd,
            expected_btc: Bitcoin { sats: 0 },
            stable_receiver_btc: Bitcoin { sats: 0 },
            stable_provider_btc: Bitcoin { sats: 0 },
            stable_receiver_usd: USD { units: 0 },
            stable_provider_usd: USD { units: 0 },
            risk_level: 0,
            timestamp: 0,
            sc_dir,
            latest_price,
        }
    }
}

/// An unset reserve counts as zero satoshis.
pub open spec fn reserve_sats_of(reserve: Option<u64>) -> int {
    match reserve {
        Some(r) => r as int,
        None => 0,
    }
}

/// Our side of the balance split: spendable capacity plus the
/// unspendable reserve, in satoshis.
pub open spec fn our_balance_of(c: ChannelSnapshot) -> int {
    c.outbound_capacity_msat as int / 1000 + reserve_sats_of(c.unspendable_punishment_reserve)
}

/// The counterparty's side: the rest of the channel value.
pub open spec fn their_balance_of(c: ChannelSnapshot) -> int {
    c.channel_value_sats - our_balance_of(c)
}

/// The receiver's satoshi balance under the given role flag.
pub open spec fn receiver_sats_of(is_stable_receiver: bool, c: ChannelSnapshot) -> int {
    if is_stable_receiver {
        our_balance_of(c)
    } else {
        their_balance_of(c)
    }
}

/// The provider's satoshi balance under the given role flag.
pub open spec fn provider_sats_of(is_stable_receiver: bool, c: ChannelSnapshot) -> int {
    if is_stable_receiver {
        their_balance_of(c)
    } else {
        our_balance_of(c)
    }
}

pub open spec fn abs_of(x: int) -> int {
    if x < 0 {
        -x
    } else {
        x
    }
}

/// The receiver's USD units once the cycle has stored the price and, when
/// a snapshot was found, recomputed the balances; a missing snapshot
/// leaves the previous value standing.
pub open spec fn receiver_units_after(
    sc: StableChannel,
    channel: Option<ChannelSnapshot>,
    price_cents: int,
) -> int {
    match channel {
        Some(c) => units_of_sats(receiver_sats_of(sc.is_stable_receiver, c), price_cents),
        None => sc.stable_receiver_usd.units as int,
    }
}

/// The classification of one cycle, in priority order: a high risk level
/// blocks everything; a deviation under a tenth of a percent of the
/// target is ignored (`|delta| / expected * 100 < 0.1` is, for a positive
/// target, exactly `|delta| * 1000 < expected`); otherwise the role and
/// the sign of the deviation decide who corrects, and a payment carries
/// the deviation converted to millisatoshis at the given price.
pub open spec fn classify_spec(
    is_stable_receiver: bool,
    risk_level: u32,
    receiver_units: int,
    expected_units: int,
    price_cents: int,
) -> StabilityAction {
    if risk_level > MAX_RISK_LEVEL {
        StabilityAction::HighRisk
    } else if abs_of(receiver_units - expected_units) * 1000 < expected_units {
        StabilityAction::DoNothing
    } else if is_stable_receiver == (receiver_units < expected_units) {
        StabilityAction::Wait
    } else {
        StabilityAction::Pay {
            amount_msat: msats_of_units(
                abs_of(receiver_units - expected_units),
                price_cents,
            ) as u64,
        }
    }
}

/// Whether two byte strings hold the same bytes.
fn bytes_eq(a: &[u8], b: &[u8]) -> (r: bool)
    ensures
        r <==> a@ == b@,
{
    let n = a.len();
    if n != b.len() {
        proof {
            assert(a@.len() != b@.len());
        }
        return false;
    }
    let mut i: usize = 0;
    while i < n
        invariant
            n == a@.len(),
            n == b@.len(),
            i <= n,
            forall|t: int| 0 <= t < i ==> a@[t] == b@[t],
        decreases n - i,
    {
        if a[i] != b[i] {
            return false;
        }
        i = i + 1;
    }
    proof {
        assert(a@ =~= b@);
    }
    true
}

/// The first snapshot in the live channel list that carries the given
/// channel id, as the cycle reads it.
pub fn find_channel(channels: &Vec<ChannelSnapshot>, channel_id: &[u8]) -> (r: Option<usize>)
    ensures
        r matches Some(i) ==> i < channels@.len()
            && channels@[i as int].channel_id@ == channel_id@
            && forall|j: int| 0 <= j < i ==> channels@[j].channel_id@ != channel_id@,
        r is None ==> forall|j: int|
            0 <= j < channels@.len() ==> channels@[j].channel_id@ != channel_id@,
{
    let n = channels.len();
    let mut i: usize = 0;
    while i < n
        invariant
            n == channels@.len(),
            i <= n,
            forall|j: int| 0 <= j < i ==> channels@[j].channel_id@ != channel_id@,
        decreases n - i,
    {
        let candidate = &channels[i];
        if bytes_eq(candidate.channel_id.as_slice(), channel_id) {
            return Some(i);
        }
        i = i + 1;
    }
    None
}

/// Recompute both parties' balances from a snapshot at the stored price,
/// or zero them when no snapshot is handed in.
pub fn update_balances(sc: &mut StableChannel, channel_details: Option<ChannelSnapshot>)
    requires
        channel_details matches Some(c) ==> our_balance_of(c) <= c.channel_value_sats,
        channel_details matches Some(c) ==> units_of_sats(
            c.channel_value_sats as int,
            old(sc).latest_price as int,
        ) <= i64::MAX,
    ensures
        channel_details matches Some(c) ==> final(sc).stable_receiver_btc.sats
            == receiver_sats_of(old(sc).is_stable_receiver, c),
        channel_details matches Some(c) ==> final(sc).stable_provider_btc.sats
            == provider_sats_of(old(sc).is_stable_receiver, c),
        channel_details matches Some(c) ==> final(sc).stable_receiver_btc.sats
            + final(sc).stable_provider_btc.sats == c.channel_value_sats,
        channel_details is None ==> final(sc).stable_receiver_btc.sats == 0
            && final(sc).stable_provider_btc.sats == 0,
        final(sc).stable_receiver_usd.units == units_of_sats(
            final(sc).stable_receiver_btc.sats as int,
            old(sc).latest_price as int,
        ),
        final(sc).stable_provider_usd.units == units_of_sats(
            final(sc).stable_provider_btc.sats as int,
            old(sc).latest_price as int,
        ),
        final(sc).stable_receiver_usd.units >= 0,
        final(sc).stable_provider_usd.units >= 0,
        final(sc).channel_id == old(sc).channel_id,
        final(sc).is_stable_receiver == old(sc).is_stable_receiver,
        final(sc).counterparty == old(sc).counterparty,
        final(sc).expected_usd == old(sc).expected_usd,
        final(sc).expected_btc == old(sc).expected_btc,
        final(sc).risk_level == old(sc).risk_level,
        final(sc).timestamp == old(sc).timestamp,
        final(sc).sc_dir == old(sc).sc_dir,
        final(sc).latest_price == old(sc).latest_price,
{
    let (our_balance, their_balance): (u64, u64) = match channel_details {
        Some(channel) => {
            let unspendable_punishment_sats: u64 = match channel.unspendable_punishment_reserve {
                Some(r) => r,
                None => 0,
            };
            let our_balance_sats: u64 = channel.outbound_capacity_msat / 1000
                + unspendable_punishment_sats;
            let their_balance_sats: u64 = channel.channel_value_sats - our_balance_sats;
            proof {
                lemma_units_of_sats_monotonic(
                    our_balance_sats as int,
                    channel.channel_value_sats as int,
                    sc.latest_price as int,
                );
                lemma_units_of_sats_monotonic(
                    their_balance_sats as int,
                    channel.channel_value_sats as int,
                    sc.latest_price as int,
                );
            }
            (our_balance_sats, their_balance_sats)
        }
        None => (0, 0),
    };
    proof {
        assert(units_of_sats(0, sc.latest_price as int) == 0) by (nonlinear_arith);
    }
    if sc.is_stable_receiver {
        sc.stable_receiver_btc = Bitcoin::from_sats(our_balance);
        sc.stable_receiver_usd = USD::from_bitcoin(sc.stable_receiver_btc, sc.latest_price);
        sc.stable_provider_btc = Bitcoin::from_sats(their_balance);
        sc.stable_provider_usd = USD::from_bitcoin(sc.stable_provider_btc, sc.latest_price);
    } else {
        sc.stable_provider_btc = Bitcoin::from_sats(our_balance);
        sc.stable_provider_usd = USD::from_bitcoin(sc.stable_provider_btc, sc.latest_price);
        sc.stable_receiver_btc = Bitcoin::from_sats(their_balance);
        sc.stable_receiver_usd = USD::from_bitcoin(sc.stable_receiver_btc, sc.latest_price);
    }
}

/// Classify one cycle's deviation into its action.
pub fn classify(
    is_stable_receiver: bool,
    risk_level: u32,
    receiver_usd: USD,
    expected_usd: USD,
    latest_price: u64,
) -> (action: StabilityAction)
    requires
        receiver_usd.units >= 0,
        expected_usd.units > 0,
        latest_price > 0,
        msats_of_units(
            abs_of(receiver_usd.units - expected_usd.units),
            latest_price as int,
        ) <= u64::MAX,
    ensures
        action == classify_spec(
            is_stable_receiver,
            risk_level,
            receiver_usd.units as int,
            expected_usd.units as int,
            latest_price as int,
        ),
{
    if risk_level > MAX_RISK_LEVEL {
        return StabilityAction::HighRisk;
    }
    let dollars_from_par: i64 = receiver_usd.units - expected_usd.units;
    let abs_from_par: i64 = if dollars_from_par < 0 {
        -dollars_from_par
    } else {
        dollars_from_par
    };
    if (abs_from_par as u128) * 1000 < (expected_usd.units as u128) {
        return StabilityAction::DoNothing;
    }
    let is_receiver_below_expected: bool = receiver_usd.units < expected_usd.units;
    if is_stable_receiver == is_receiver_below_expected {
        StabilityAction::Wait
    } else {
        let amount_msat = USD::from_units(abs_from_par).to_msats(latest_price);
        StabilityAction::Pay { amount_msat }
    }
}

/// One reconciliation cycle: store the aggregated price, recompute the
/// balances from the snapshot when one was found (a missing snapshot
/// leaves the previous, now stale, balances standing), and classify the
/// deviation from the peg. The caller sends the payment of a `Pay`
/// action to the counterparty and may re-read the balances after a
/// `Wait`; a cycle without a positive price is skipped before this
/// function is reached.
pub fn check_stability(
    sc: &mut StableChannel,
    channel: Option<ChannelSnapshot>,
    price_cents: u64,
) -> (action: StabilityAction)
    requires
        price_cents > 0,
        old(sc).expected_usd.units > 0,
        old(sc).stable_receiver_usd.units >= 0,
        channel matches Some(c) ==> our_balance_of(c) <= c.channel_value_sats,
        channel matches Some(c) ==> units_of_sats(
            c.channel_value_sats as int,
            price_cents as int,
        ) <= i64::MAX,
        msats_of_units(
            abs_of(
                receiver_units_after(*old(sc), channel, price_cents as int)
                    - old(sc).expected_usd.units,
            ),
            price_cents as int,
        ) <= u64::MAX,
    ensures
        final(sc).latest_price == price_cents,
        channel matches Some(c) ==> final(sc).stable_receiver_btc.sats
            == receiver_sats_of(old(sc).is_stable_receiver, c),
        channel matches Some(c) ==> final(sc).stable_provider_btc.sats
            == provider_sats_of(old(sc).is_stable_receiver, c),
        channel matches Some(c) ==> final(sc).stable_receiver_btc.sats
            + final(sc).stable_provider_btc.sats == c.channel_value_sats,
        channel matches Some(c) ==> final(sc).stable_receiver_usd.units == units_of_sats(
            final(sc).stable_receiver_btc.sats as int,
            price_cents as int,
        ),
        channel matches Some(c) ==> final(sc).stable_provider_usd.units == units_of_sats(
            final(sc).stable_provider_btc.sats as int,
            price_cents as int,
        ),
        channel is None ==> final(sc).stable_receiver_btc == old(sc).stable_receiver_btc
            && final(sc).stable_provider_btc == old(sc).stable_provider_btc
            && final(sc).stable_receiver_usd == old(sc).stable_receiver_usd
            && final(sc).stable_provider_usd == old(sc).stable_provider_usd,
        final(sc).channel_id == old(sc).channel_id,
        final(sc).is_stable_receiver == old(sc).is_stable_receiver,
        final(sc).counterparty == old(sc).counterparty,
        final(sc).expected_usd == old(sc).expected_usd,
        final(sc).expected_btc == old(sc).expected_btc,
        final(sc).risk_level == old(sc).risk_level,
        final(sc).timestamp == old(sc).timestamp,
        final(sc).sc_dir == old(sc).sc_dir,
        action == classify_spec(
            old(sc).is_stable_receiver,
            old(sc).risk_level,
            receiver_units_after(*old(sc), channel, price_cents as int),
            old(sc).expected_usd.units as int,
            price_cents as int,
        ),
{
    sc.latest_price = price_cents;
    match channel {
        Some(c) => {
            update_balances(sc, Some(c));
        }
        None => {}
    }
    classify(
        sc.is_stable_receiver,
        sc.risk_level,
        sc.stable_receiver_usd,
        sc.expected_usd,
        price_cents,
    )
}

/// The two sides of the balance split always rebuild the whole channel
/// value: for every snapshot whose reserve and spendable capacity fit in
/// the channel, our balance plus their balance is the channel value.
pub proof fn lemma_balance_split_conservation(c: ChannelSnapshot)
    requires
        our_balance_of(c) <= c.channel_value_sats,
    ensures
        our_balance_of(c) + their_balance_of(c) == c.channel_value_sats,
{
}

/// A deviation under a tenth of a percent of the target is left alone,
/// whatever the role and whichever side of the target the balance is on.
pub proof fn lemma_small_deviation_does_nothing(
    is_stable_receiver: bool,
    risk_level: u32,
    receiver_units: int,
    expected_units: int,
    price_cents: int,
)
    requires
        risk_level <= MAX_RISK_LEVEL,
        expected_units > 0,
        abs_of(receiver_units - expected_units) * 1000 < expected_units,
    ensures
        classify_spec(is_stable_receiver, risk_level, receiver_units, expected_units, price_cents)
            == StabilityAction::DoNothing,
{
}

/// Role symmetry of a deviation at or above the threshold: the receiver
/// waits below the target and pays above it; the provider pays below the
/// target and waits above it.
pub proof fn lemma_role_symmetry(
    risk_level: u32,
    receiver_units: int,
    expected_units: int,
    price_cents: int,
)
    requires
        risk_level <= MAX_RISK_LEVEL,
        expected_units > 0,
        abs_of(receiver_units - expected_units) * 1000 >= expected_units,
    ensures
        receiver_units < expected_units ==> classify_spec(
            true, risk_level, receiver_units, expected_units, price_cents,
        ) == StabilityAction::Wait,
        receiver_units > expected_units ==> classify_spec(
            true, risk_level, receiver_units, expected_units, price_cents,
        ) == (StabilityAction::Pay {
            amount_msat: msats_of_units(receiver_units - expected_units, price_cents) as u64,
        }),
        receiver_units < expected_units ==> classify_spec(
            false, risk_level, receiver_units, expected_units, price_cents,
        ) == (StabilityAction::Pay {
            amount_msat: msats_of_units(expected_units - receiver_units, price_cents) as u64,
        }),
        receiver_units > expected_units ==> classify_spec(
            false, risk_level, receiver_units, expected_units, price_cents,
        ) == StabilityAction::Wait,
{
}

/// A risk level above the bound always classifies as high risk, whatever
/// the deviation: no payment is issued.
pub proof fn lemma_high_risk_blocks_payment(
    is_stable_receiver: bool,
    risk_level: u32,
    receiver_units: int,
    expected_units: int,
    price_cents: int,
)
    requires
        risk_level > MAX_RISK_LEVEL,
    ensures
        classify_spec(is_stable_receiver, risk_level, receiver_units, expected_units, price_cents)
            == StabilityAction::HighRisk,
{
}

} // verus!
