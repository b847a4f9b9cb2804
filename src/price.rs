//! Price manipulation within one transaction, scored on the price impact and
//! size of its swaps against pool depth, the oracle's TWAP deviation, an
//! explicit deviation alert, and a pump of several swaps on one pool.

use vstd::prelude::*;
use vstd::string::*;
use crate::events::{
    classify, kind_of, swaps_in, twap_updates_in, ContractEvent, EventKind, SwapExecuted, TWAPUpdated,
    TWAPUpdatedView,
};
use crate::risk::{reports, DetailValue, DetectionContext, RiskEvent, RiskLevel, RiskType};
use crate::text::{format_bps, format_currency, hex_id, id_text, percent_text, push_all};

verus! {

/// A swap as the price analysis sees it; reserves are after the swap.
#[derive(Clone, Debug)]
pub struct SwapImpact {
    pub pool_id: String,
    pub amount_in: u64,
    pub amount_out: u64,
    /// Price impact in basis points.
    pub price_impact: u64,
    pub reserve_a: u64,
    pub reserve_b: u64,
}

/// The value of a `SwapImpact`.
pub struct SwapImpactView {
    pub pool_id: Seq<char>,
    pub amount_in: u64,
    pub amount_out: u64,
    pub price_impact: u64,
    pub reserve_a: u64,
    pub reserve_b: u64,
}

impl View for SwapImpact {
    type V = SwapImpactView;

    open spec fn view(&self) -> SwapImpactView {
        SwapImpactView {
            pool_id: self.pool_id@,
            amount_in: self.amount_in,
            amount_out: self.amount_out,
            price_impact: self.price_impact,
            reserve_a: self.reserve_a,
            reserve_b: self.reserve_b,
        }
    }
}

/// The values of a sequence of swaps.
pub open spec fn impact_views(s: Seq<SwapImpact>) -> Seq<SwapImpactView>
    decreases s.len(),
{
    if s.len() == 0 {
        Seq::empty()
    } else {
        impact_views(s.drop_last()).push(s.last()@)
    }
}

pub proof fn lemma_impact_views(s: Seq<SwapImpact>)
    ensures
        impact_views(s).len() == s.len(),
        forall|i: int| 0 <= i < s.len() ==> #[trigger] impact_views(s)[i] == s[i]@,
    decreases s.len(),
{
    if s.len() > 0 {
        lemma_impact_views(s.drop_last());
    }
}

/// The swaps of a transaction as impacts, in order.
pub open spec fn impacts_of(swaps: Seq<SwapExecuted>) -> Seq<SwapImpactView>
    decreases swaps.len(),
{
    if swaps.len() == 0 {
        Seq::empty()
    } else {
        let s = swaps.last();
        impacts_of(swaps.drop_last()).push(SwapImpactView {
            pool_id: hex_id(s.pool_id),
            amount_in: s.amount_in,
            amount_out: s.amount_out,
            price_impact: s.price_impact,
            reserve_a: s.reserve_a,
            reserve_b: s.reserve_b,
        })
    }
}

/// The largest price impact, 0 when there is no swap.
pub open spec fn max_impact(swaps: Seq<SwapImpactView>) -> u64
    decreases swaps.len(),
{
    if swaps.len() == 0 {
        0
    } else if swaps.last().price_impact > max_impact(swaps.drop_last()) {
        swaps.last().price_impact
    } else {
        max_impact(swaps.drop_last())
    }
}

/// The smaller reserve after a swap.
pub open spec fn depth(s: SwapImpactView) -> u64 {
    if s.reserve_a < s.reserve_b { s.reserve_a } else { s.reserve_b }
}

/// The largest share of pool depth a swap puts in, in basis points rounded
/// down and capped at the largest `u64`; swaps on empty pools are skipped.
pub open spec fn ratio_max_bps(swaps: Seq<SwapImpactView>) -> u64
    decreases swaps.len(),
{
    if swaps.len() == 0 {
        0
    } else {
        let rest = ratio_max_bps(swaps.drop_last());
        let s = swaps.last();
        if depth(s) > 0 && s.amount_in * 10000 / depth(s) as int > rest {
            if s.amount_in * 10000 / depth(s) as int > u64::MAX { u64::MAX } else { (s.amount_in * 10000 / depth(s) as int) as u64 }
        } else {
            rest
        }
    }
}

/// The description of a report: its largest price impact, TWAP deviation if
/// any, and largest share of pool depth.
pub open spec fn price_description(twap: Option<TWAPUpdatedView>, swaps: Seq<SwapImpactView>) -> Seq<char> {
    let head = match twap {
        Some(t) => "Price manipulation: "@ + percent_text(max_impact(swaps) as nat) + " price impact, "@ + percent_text(
            t.price_deviation as nat,
        ) + " TWAP deviation (ratio: "@,
        None => "High price impact: "@ + percent_text(max_impact(swaps) as nat) + " in single swap (ratio: "@,
    };
    head + percent_text(ratio_max_bps(swaps) as nat) + if twap is Some { " of pool)"@ } else { " of pool depth)"@ }
}

/// Some swap puts in more than `num / den` of its pool's depth.
pub open spec fn ratio_above(swaps: Seq<SwapImpactView>, num: int, den: int) -> bool {
    exists|k: int| 0 <= k < swaps.len() && depth(#[trigger] swaps[k]) > 0 && swaps[k].amount_in * den > num * depth(swaps[k])
}

/// At least two swaps, all on the first swap's pool and each with a price
/// impact of at least 100 basis points.
pub open spec fn pump_pattern(swaps: Seq<SwapImpactView>) -> bool {
    swaps.len() >= 2 && forall|k: int|
        #![trigger swaps[k]]
        0 <= k < swaps.len() ==> swaps[k].pool_id == swaps[0].pool_id && swaps[k].price_impact >= 100
}

/// Some event is named `PriceDeviationDetected`.
pub open spec fn deviation_flagged(evs: Seq<ContractEvent>) -> bool {
    exists|k: int| 0 <= k < evs.len() && kind_of(#[trigger] evs[k].name@) == Some(EventKind::PriceDeviationDetected)
}

/// The level of a price-manipulation score of at least 25.
pub open spec fn price_level(score: u32) -> RiskLevel {
    if score <= 49 {
        RiskLevel::Low
    } else if score <= 69 {
        RiskLevel::Medium
    } else if score <= 84 {
        RiskLevel::High
    } else {
        RiskLevel::Critical
    }
}

/// Price manipulation analyzer.
pub struct PriceAnalyzer {
    /// Price impact that counts as high (bps).
    pub high_price_impact_threshold: u64,
    /// Price impact, and TWAP deviation, that counts as critical (bps).
    pub critical_price_impact_threshold: u64,
    /// TWAP deviation that counts at all (bps).
    pub twap_deviation_threshold: u64,
    /// TWAP deviation that counts as high (bps).
    pub high_twap_deviation_threshold: u64,
    /// Share of pool depth above which a trade counts as large (bps).
    pub large_trade_ratio_bps: u64,
}

impl PriceAnalyzer {
    /// The score of the signals of one transaction.
    pub open spec fn score_of(&self, twap: Option<TWAPUpdatedView>, swaps: Seq<SwapImpactView>, flagged: bool) -> u32 {
        let m = max_impact(swaps);
        ((if swaps.len() > 0 {
            (if m >= self.critical_price_impact_threshold { 40int }
             else if m >= self.high_price_impact_threshold { 30int }
             else if m >= 500 { 15int } else { 0int })
            + (if ratio_above(swaps, 3, 10) { 25int }
               else if ratio_above(swaps, self.large_trade_ratio_bps as int, 10000) { 15int } else { 0int })
        } else {
            0int
        })
            + (match twap {
            Some(t) => if t.price_deviation >= self.critical_price_impact_threshold { 25int }
                else if t.price_deviation >= self.high_twap_deviation_threshold { 15int }
                else if t.price_deviation >= self.twap_deviation_threshold { 5int } else { 0int },
            None => 0int,
        })
            + (if flagged { 10int } else { 0int })
            + (if pump_pattern(swaps) { 10int } else { 0int })) as u32
    }

    /// The first TWAP update of a transaction.
    pub open spec fn first_twap(evs: Seq<ContractEvent>) -> Option<TWAPUpdatedView> {
        if twap_updates_in(evs).len() > 0 { Some(twap_updates_in(evs)[0]) } else { None }
    }

    /// The score of a transaction, or none when it has neither a TWAP update
    /// nor a swap.
    pub open spec fn score(&self, evs: Seq<ContractEvent>) -> Option<u32> {
        let twap = Self::first_twap(evs);
        let swaps = impacts_of(swaps_in(evs));
        if twap is None && swaps.len() == 0 {
            None
        } else {
            Some(self.score_of(twap, swaps, deviation_flagged(evs)))
        }
    }

    /// What `analyze` returns: a `PriceManipulation` event when the score
    /// reaches 25, at the level of the score, and nothing otherwise.
    pub open spec fn outcome(&self, evs: Seq<ContractEvent>, ctx: DetectionContext, r: Option<RiskEvent>) -> bool {
        match self.score(evs) {
            Some(s) => if s >= 25 {
                r matches Some(e) && e.description@ == price_description(Self::first_twap(evs), impacts_of(
                    swaps_in(evs),
                )) && reports(
                    e,
                    RiskType::PriceManipulation,
                    price_level(s),
                    ctx.tx_digest@,
                    ctx.sender@,
                    ctx.checkpoint,
                    ctx.timestamp_ms,
                    s,
                )
            } else {
                r is None
            },
            None => r is None,
        }
    }

    pub fn new() -> (r: Self)
        ensures
            r.high_price_impact_threshold == 1000,
            r.critical_price_impact_threshold == 2000,
            r.twap_deviation_threshold == 500,
            r.high_twap_deviation_threshold == 1000,
            r.large_trade_ratio_bps == 1500,
    {
        PriceAnalyzer {
            high_price_impact_threshold: 1000,
            critical_price_impact_threshold: 2000,
            twap_deviation_threshold: 500,
            high_twap_deviation_threshold: 1000,
            large_trade_ratio_bps: 1500,
        }
    }

    /// Scores one transaction's events.
    pub fn analyze(&self, events: &Vec<ContractEvent>, context: &DetectionContext) -> (r: Option<RiskEvent>)
        ensures
            self.outcome(events@, *context, r),
    {
        let twap_info = self.extract_twap_info(events);
        let swaps = self.extract_swap_impacts(events);
        let ghost sv = impact_views(swaps@);
        proof {
            lemma_impact_views(swaps@);
        }
        if twap_info.is_none() && swaps.len() == 0 {
            return None;
        }
        let mut risk_score: u32 = 0;
        let mut max_price_impact: u64 = 0;
        let mut best_ratio_bps: u64 = 0;
        if swaps.len() > 0 {
            let mut above_critical_ratio = false;
            let mut above_large_ratio = false;
            let mut i: usize = 0;
            while i < swaps.len()
                invariant
                    i <= swaps@.len(),
                    sv == impact_views(swaps@),
                    sv.len() == swaps@.len(),
                    forall|q: int| 0 <= q < swaps@.len() ==> #[trigger] sv[q] == swaps@[q]@,
                    max_price_impact == max_impact(sv.take(i as int)),
                    best_ratio_bps == ratio_max_bps(sv.take(i as int)),
                    above_critical_ratio == ratio_above(sv.take(i as int), 3, 10),
                    above_large_ratio == ratio_above(sv.take(i as int), self.large_trade_ratio_bps as int, 10000),
                decreases swaps@.len() - i,
            {
                let s = &swaps[i];
                proof {
                    let t = sv.take(i + 1);
                    assert(t.drop_last() =~= sv.take(i as int));
                    assert(t.last() == s@);
                    assert(forall|k: int| 0 <= k < i ==> #[trigger] t[k] == sv.take(i as int)[k]);
                }
                if s.price_impact > max_price_impact {
                    max_price_impact = s.price_impact;
                }
                let pool_depth = if s.reserve_a < s.reserve_b { s.reserve_a } else { s.reserve_b };
                if pool_depth > 0 {
                    proof {
                        let a = self.large_trade_ratio_bps as int;
                        let d = pool_depth as int;
                        assert(0 <= a * d <= 0xffff_ffff_ffff_ffff * 0xffff_ffff_ffff_ffff) by (nonlinear_arith)
                            requires
                                0 <= a <= 0xffff_ffff_ffff_ffff,
                                0 <= d <= 0xffff_ffff_ffff_ffff,
                        ;
                    }
                    if s.amount_in as u128 * 10 > 3 * pool_depth as u128 {
                        above_critical_ratio = true;
                    }
                    if s.amount_in as u128 * 10000 > self.large_trade_ratio_bps as u128 * pool_depth as u128 {
                        above_large_ratio = true;
                    }
                    let ratio = s.amount_in as u128 * 10000 / pool_depth as u128;
                    if ratio > best_ratio_bps as u128 {
                        best_ratio_bps = if ratio > u64::MAX as u128 { u64::MAX } else { ratio as u64 };
                    }
                }
                i = i + 1;
            }
            proof {
                assert(sv.take(i as int) =~= sv);
            }
            if max_price_impact >= self.critical_price_impact_threshold {
                risk_score = risk_score + 40;
            } else if max_price_impact >= self.high_price_impact_threshold {
                risk_score = risk_score + 30;
            } else if max_price_impact >= 500 {
                risk_score = risk_score + 15;
            }
            if above_critical_ratio {
                risk_score = risk_score + 25;
            } else if above_large_ratio {
                risk_score = risk_score + 15;
            }
        }
        let mut twap_deviation: u64 = 0;
        if let Some(twap) = &twap_info {
            twap_deviation = twap.price_deviation;
            if twap_deviation >= self.critical_price_impact_threshold {
                risk_score = risk_score + 25;
            } else if twap_deviation >= self.high_twap_deviation_threshold {
                risk_score = risk_score + 15;
            } else if twap_deviation >= self.twap_deviation_threshold {
                risk_score = risk_score + 5;
            }
        }
        if self.has_deviation_detected_event(events) {
            risk_score = risk_score + 10;
        }
        if swaps.len() >= 2 && self.is_pump_pattern(swaps.as_slice()) {
            risk_score = risk_score + 10;
        }
        if risk_score < 25 {
            return None;
        }
        let risk_level = if risk_score <= 49 {
            RiskLevel::Low
        } else if risk_score <= 69 {
            RiskLevel::Medium
        } else if risk_score <= 84 {
            RiskLevel::High
        } else {
            RiskLevel::Critical
        };
        let mut description = if twap_info.is_some() {
            let mut d = String::from_str("Price manipulation: ");
            push_all(&mut d, &format_bps(max_price_impact));
            d.append(" price impact, ");
            push_all(&mut d, &format_bps(twap_deviation));
            d.append(" TWAP deviation (ratio: ");
            d
        } else {
            let mut d = String::from_str("High price impact: ");
            push_all(&mut d, &format_bps(max_price_impact));
            d.append(" in single swap (ratio: ");
            d
        };
        push_all(&mut description, &format_bps(best_ratio_bps));
        if twap_info.is_some() {
            description.append(" of pool)");
        } else {
            description.append(" of pool depth)");
        }
        let mut event = RiskEvent::new(
            RiskType::PriceManipulation,
            risk_level,
            context.tx_digest.clone(),
            context.sender.clone(),
            context.checkpoint,
            context.timestamp_ms,
            description,
        );
        event = event.with_detail(String::from_str("max_price_impact"), DetailValue::Text(format_bps(max_price_impact)))
            .with_detail(String::from_str("swap_count"), DetailValue::Unsigned(swaps.len() as u64))
            .with_detail(String::from_str("swap_to_depth_ratio"), DetailValue::Text(format_bps(best_ratio_bps)));
        if let Some(twap) = twap_info {
            event = event.with_detail(String::from_str("twap_deviation"), DetailValue::Text(format_bps(twap.price_deviation)))
                .with_detail(String::from_str("spot_price"), DetailValue::Text(format_currency(twap.spot_price_a)))
                .with_detail(String::from_str("twap_price"), DetailValue::Text(format_currency(twap.twap_price_a)))
                .with_detail(String::from_str("pool_id"), DetailValue::Text(id_text(twap.pool_id)));
        }
        Some(event.with_detail(String::from_str("risk_score"), DetailValue::Unsigned(risk_score as u64)))
    }

    /// The first TWAP update that decodes.
    fn extract_twap_info(&self, events: &Vec<ContractEvent>) -> (r: Option<TWAPUpdated>)
        ensures
            match Self::first_twap(events@) {
                Some(v) => r matches Some(t) && t@ == v,
                None => r is None,
            },
    {
        let mut i: usize = 0;
        while i < events.len()
            invariant
                i <= events@.len(),
                twap_updates_in(events@.take(i as int)).len() == 0,
            decreases events@.len() - i,
        {
            proof {
                assert(events@.take(i + 1).drop_last() =~= events@.take(i as int));
                assert(events@.take(i + 1).last() == events@[i as int]);
            }
            if let Some(t) = TWAPUpdated::from_event(&events[i]) {
                proof {
                    lemma_twaps_prefix(events@, i as int + 1);
                }
                return Some(t);
            }
            i = i + 1;
        }
        proof {
            assert(events@.take(events@.len() as int) =~= events@);
        }
        None
    }

    /// The swaps of the events as impacts.
    fn extract_swap_impacts(&self, events: &Vec<ContractEvent>) -> (r: Vec<SwapImpact>)
        ensures
            impact_views(r@) == impacts_of(swaps_in(events@)),
    {
        let mut swaps: Vec<SwapImpact> = Vec::new();
        let mut i: usize = 0;
        while i < events.len()
            invariant
                i <= events@.len(),
                impact_views(swaps@) == impacts_of(swaps_in(events@.take(i as int))),
            decreases events@.len() - i,
        {
            proof {
                assert(events@.take(i + 1).drop_last() =~= events@.take(i as int));
                assert(events@.take(i + 1).last() == events@[i as int]);
            }
            if let Some(parsed) = SwapExecuted::from_event(&events[i]) {
                proof {
                    let before = swaps_in(events@.take(i as int));
                    assert(before.push(parsed).drop_last() =~= before);
                }
                let ghost s0 = swaps@;
                swaps.push(
                    SwapImpact {
                        pool_id: id_text(parsed.pool_id),
                        amount_in: parsed.amount_in,
                        amount_out: parsed.amount_out,
                        price_impact: parsed.price_impact,
                        reserve_a: parsed.reserve_a,
                        reserve_b: parsed.reserve_b,
                    },
                );
                proof {
                    assert(swaps@.drop_last() =~= s0);
                }
            }
            i = i + 1;
        }
        proof {
            assert(events@.take(events@.len() as int) =~= events@);
        }
        swaps
    }

    /// Whether some event is named `PriceDeviationDetected`.
    fn has_deviation_detected_event(&self, events: &Vec<ContractEvent>) -> (r: bool)
        ensures
            r == deviation_flagged(events@),
    {
        let mut i: usize = 0;
        while i < events.len()
            invariant
                i <= events@.len(),
                forall|k: int| 0 <= k < i ==> kind_of(#[trigger] events@[k].name@) != Some(EventKind::PriceDeviationDetected),
            decreases events@.len() - i,
        {
            if matches!(classify(&events[i].name), Some(EventKind::PriceDeviationDetected)) {
                return true;
            }
            i = i + 1;
        }
        false
    }

    /// Whether the swaps form a pump: at least two, all on the first swap's
    /// pool, each with a price impact of at least 100 basis points.
    pub fn is_pump_pattern(&self, swaps: &[SwapImpact]) -> (r: bool)
        ensures
            r == pump_pattern(impact_views(swaps@)),
    {
        let ghost sv = impact_views(swaps@);
        proof {
            lemma_impact_views(swaps@);
        }
        if swaps.len() < 2 {
            return false;
        }
        let first_pool = &swaps[0].pool_id;
        let mut k: usize = 0;
        while k < swaps.len()
            invariant
                k <= swaps@.len(),
                swaps@.len() >= 2,
                sv == impact_views(swaps@),
                sv.len() == swaps@.len(),
                forall|q: int| 0 <= q < swaps@.len() ==> #[trigger] sv[q] == swaps@[q]@,
                first_pool@ == sv[0].pool_id,
                forall|q: int|
                    #![trigger sv[q]]
                    0 <= q < k ==> sv[q].pool_id == sv[0].pool_id && sv[q].price_impact >= 100,
            decreases swaps@.len() - k,
        {
            if !(swaps[k].pool_id == *first_pool && swaps[k].price_impact >= 100) {
                proof {
                    assert(sv[k as int] == swaps@[k as int]@);
                    assert(!(sv[k as int].pool_id == sv[0].pool_id && sv[k as int].price_impact >= 100));
                    assert(!pump_pattern(sv));
                }
                return false;
            }
            k = k + 1;
        }
        true
    }
}

/// The first TWAP update of a sequence is the first one in any prefix that
/// holds one.
proof fn lemma_twaps_prefix(evs: Seq<ContractEvent>, n: int)
    requires
        0 < n <= evs.len(),
        twap_updates_in(evs.take(n - 1)).len() == 0,
        TWAPUpdated::of_event(evs[n - 1]) is Some,
    ensures
        twap_updates_in(evs).len() > 0,
        twap_updates_in(evs)[0] == TWAPUpdated::of_event(evs[n - 1])->0,
    decreases evs.len(),
{
    if evs.len() == n {
        assert(evs.take(n - 1) =~= evs.drop_last());
    } else {
        assert(evs.drop_last().take(n - 1) =~= evs.take(n - 1));
        lemma_twaps_prefix(evs.drop_last(), n);
    }
}

/// A transaction without swaps or TWAP updates is not reported, whatever
/// other signals it carries.
pub proof fn lemma_no_signal_absent(a: PriceAnalyzer, evs: Seq<ContractEvent>)
    requires
        twap_updates_in(evs).len() == 0,
        swaps_in(evs).len() == 0,
    ensures
        a.score(evs) is None,
{
    assert(impacts_of(swaps_in(evs)) =~= Seq::<SwapImpactView>::empty());
}

} // verus!
