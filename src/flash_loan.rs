//! Flash-loan arbitrage detection within one transaction: a loan taken and
//! repaid around swaps, scored on circular trading, swap count, price impact,
//! pools touched and loan size.

use vstd::prelude::*;
use vstd::string::*;
use crate::events::{
    clamp_u64, flash_loans_taken_in, kind_of, loan_total, ContractEvent, EventKind, FlashLoanTaken,
    SwapExecuted, classify,
};
use crate::risk::{reports, DetailValue, DetectionContext, RiskEvent, RiskLevel, RiskType};
use crate::text::{decimal, format_bps, format_currency, hex_id, id_text, percent_text, push_all, push_decimal};

verus! {

/// A swap as the flash-loan analysis sees it.
#[derive(Clone, Debug)]
pub struct SwapInfo {
    pub pool_id: String,
    pub sender: String,
    /// The type of the token that goes in.
    pub token_in_type: String,
    pub amount_in: u64,
    pub amount_out: u64,
    /// Price impact in basis points.
    pub price_impact: u64,
}

/// The value of a `SwapInfo`.
pub struct SwapInfoView {
    pub pool_id: Seq<char>,
    pub sender: Seq<char>,
    pub token_in_type: Seq<char>,
    pub amount_in: u64,
    pub amount_out: u64,
    pub price_impact: u64,
}

impl View for SwapInfo {
    type V = SwapInfoView;

    open spec fn view(&self) -> SwapInfoView {
        SwapInfoView {
            pool_id: self.pool_id@,
            sender: self.sender@,
            token_in_type: self.token_in_type@,
            amount_in: self.amount_in,
            amount_out: self.amount_out,
            price_impact: self.price_impact,
        }
    }
}

/// The values of a sequence of swaps.
pub open spec fn info_views(s: Seq<SwapInfo>) -> Seq<SwapInfoView>
    decreases s.len(),
{
    if s.len() == 0 {
        Seq::empty()
    } else {
        info_views(s.drop_last()).push(s.last()@)
    }
}

pub proof fn lemma_info_views(s: Seq<SwapInfo>)
    ensures
        info_views(s).len() == s.len(),
        forall|i: int| 0 <= i < s.len() ==> #[trigger] info_views(s)[i] == s[i]@,
    decreases s.len(),
{
    if s.len() > 0 {
        lemma_info_views(s.drop_last());
    }
}

/// The first type parameter of an event, or nothing.
pub open spec fn first_type_param(ev: ContractEvent) -> Seq<char> {
    if ev.type_params@.len() > 0 { ev.type_params@[0]@ } else { Seq::empty() }
}

/// The swap an event gives, if it is a `SwapExecuted` that decodes.
pub open spec fn swap_info_of(ev: ContractEvent) -> Option<SwapInfoView> {
    match SwapExecuted::of_event(ev) {
        Some(s) => Some(SwapInfoView {
            pool_id: hex_id(s.pool_id),
            sender: hex_id(s.sender),
            token_in_type: first_type_param(ev),
            amount_in: s.amount_in,
            amount_out: s.amount_out,
            price_impact: s.price_impact,
        }),
        None => None,
    }
}

/// The swaps of a transaction, in order.
pub open spec fn swap_infos_in(evs: Seq<ContractEvent>) -> Seq<SwapInfoView>
    decreases evs.len(),
{
    if evs.len() == 0 {
        Seq::empty()
    } else {
        match swap_info_of(evs.last()) {
            Some(s) => swap_infos_in(evs.drop_last()).push(s),
            None => swap_infos_in(evs.drop_last()),
        }
    }
}

/// The number of events named `FlashLoanRepaid`, whether or not they decode.
pub open spec fn repaid_count(evs: Seq<ContractEvent>) -> nat
    decreases evs.len(),
{
    if evs.len() == 0 {
        0
    } else {
        repaid_count(evs.drop_last()) + if kind_of(evs.last().name@) == Some(EventKind::FlashLoanRepaid) {
            1nat
        } else {
            0nat
        }
    }
}

/// The token that the first swap puts in goes in again in a later swap.
pub open spec fn circular(swaps: Seq<SwapInfoView>) -> bool {
    swaps.len() >= 2 && exists|k: int| 1 <= k < swaps.len() && #[trigger] swaps[k].token_in_type == swaps[0].token_in_type
}

/// The number of distinct pools among the swaps.
pub open spec fn distinct_pools(swaps: Seq<SwapInfoView>) -> nat
    decreases swaps.len(),
{
    if swaps.len() == 0 {
        0
    } else {
        let rest = swaps.drop_last();
        distinct_pools(rest) + if exists|k: int| 0 <= k < rest.len() && #[trigger] rest[k].pool_id == swaps.last().pool_id {
            0nat
        } else {
            1nat
        }
    }
}

/// The sum of the price impacts.
pub open spec fn impact_sum(swaps: Seq<SwapInfoView>) -> nat
    decreases swaps.len(),
{
    if swaps.len() == 0 { 0 } else { impact_sum(swaps.drop_last()) + swaps.last().price_impact as nat }
}

/// The largest price impact, 0 when there is no swap.
pub open spec fn impact_max(swaps: Seq<SwapInfoView>) -> u64
    decreases swaps.len(),
{
    if swaps.len() == 0 {
        0
    } else if swaps.last().price_impact > impact_max(swaps.drop_last()) {
        swaps.last().price_impact
    } else {
        impact_max(swaps.drop_last())
    }
}

/// Some loan borrows more than 1,000,000,000.
pub open spec fn has_large_loan(loans: Seq<FlashLoanTaken>) -> bool {
    exists|i: int| 0 <= i < loans.len() && #[trigger] loans[i].amount > 1_000_000_000
}

/// The level of a flash-loan score of at least 30.
pub open spec fn flash_loan_level(score: u32) -> RiskLevel {
    if score <= 49 {
        RiskLevel::Low
    } else if score <= 69 {
        RiskLevel::Medium
    } else if score <= 84 {
        RiskLevel::High
    } else {
        RiskLevel::Critical
    }
}

/// Flash-loan attack analyzer.
pub struct FlashLoanAnalyzer {
    /// Fewest swaps for a multi-swap pattern.
    pub min_swap_count: usize,
    /// Single-swap price impact above which a swap counts as large (bps).
    pub price_impact_threshold: u64,
    /// Total price impact above which the swaps count as heavy (bps).
    pub high_price_impact_threshold: u64,
}

impl FlashLoanAnalyzer {
    /// The score of the signals: loans and swaps of one transaction.
    pub open spec fn score_of(&self, loans: Seq<FlashLoanTaken>, swaps: Seq<SwapInfoView>) -> u32 {
        let n = swaps.len();
        let total = clamp_u64(impact_sum(swaps));
        let pools = distinct_pools(swaps);
        ((if circular(swaps) { 30int } else { 0int })
            + (if n >= 3 { 20int } else if n >= 2 { 10int } else { 0int })
            + (if total > 2 * self.high_price_impact_threshold { 25int }
               else if total > self.high_price_impact_threshold { 15int } else { 0int })
            + (if impact_max(swaps) > self.price_impact_threshold { 15int } else { 0int })
            + (if pools >= 3 { 15int } else if pools >= 2 { 10int } else { 0int })
            + (if has_large_loan(loans) { 10int } else { 0int })) as u32
    }

    /// The description of a report on the swaps.
    pub open spec fn description_of(swaps: Seq<SwapInfoView>) -> Seq<char> {
        let text = "Flash loan arbitrage detected: "@ + decimal(swaps.len()) + " swaps across "@ + decimal(
            distinct_pools(swaps),
        ) + " pools, "@ + percent_text(clamp_u64(impact_sum(swaps)) as nat) + " total price impact"@;
        if circular(swaps) { text + ", circular trading pattern"@ } else { text }
    }

    /// The score of a transaction: none when no loan is both taken and repaid
    /// or when there is no swap.
    pub open spec fn score(&self, evs: Seq<ContractEvent>) -> Option<u32> {
        let loans = flash_loans_taken_in(evs);
        let swaps = swap_infos_in(evs);
        if loans.len() == 0 || repaid_count(evs) == 0 || swaps.len() == 0 {
            None
        } else {
            Some(self.score_of(loans, swaps))
        }
    }

    /// What `analyze` returns: a `FlashLoanAttack` event when the score
    /// reaches 30, at the level of the score, and nothing otherwise.
    pub open spec fn outcome(&self, evs: Seq<ContractEvent>, ctx: DetectionContext, r: Option<RiskEvent>) -> bool {
        match self.score(evs) {
            Some(s) => if s >= 30 {
                r matches Some(e) && e.description@ == Self::description_of(swap_infos_in(evs)) && reports(
                    e,
                    RiskType::FlashLoanAttack,
                    flash_loan_level(s),
                    ctx.tx_digest@,
                    ctx.sender@,
                    ctx.checkpoint,
                    ctx.timestamp_ms,
                    s,
                )
            } else {
                r is None
            },
            None => r is None,
        }
    }

    pub fn new() -> (r: Self)
        ensures
            r.min_swap_count == 2,
            r.price_impact_threshold == 500,
            r.high_price_impact_threshold == 1000,
    {
        FlashLoanAnalyzer { min_swap_count: 2, price_impact_threshold: 500, high_price_impact_threshold: 1000 }
    }

    /// Scores one transaction's events.
    pub fn analyze(&self, events: &Vec<ContractEvent>, context: &DetectionContext) -> (r: Option<RiskEvent>)
        ensures
            self.outcome(events@, *context, r),
    {
        let loans = match self.extract_flash_loan_info(events) {
            Some(l) => l,
            None => return None,
        };
        let swaps = self.extract_swap_events(events);
        if swaps.len() == 0 {
            return None;
        }
        proof {
            lemma_info_views(swaps@);
        }
        let circular_trading = self.detect_circular_trading(swaps.as_slice());
        let unique_pools = self.count_unique_pools(swaps.as_slice());
        let total_price_impact = self.calculate_total_price_impact(swaps.as_slice());
        let max_single_impact = self.calculate_max_price_impact(swaps.as_slice());
        let mut large_loan = false;
        let mut total_borrowed: u64 = 0;
        let mut i: usize = 0;
        while i < loans.len()
            invariant
                i <= loans@.len(),
                total_borrowed == clamp_u64(loan_total(loans@.take(i as int))),
                large_loan == exists|k: int| 0 <= k < i && #[trigger] loans@[k].amount > 1_000_000_000,
            decreases loans@.len() - i,
        {
            proof {
                assert(loans@.take(i + 1).drop_last() =~= loans@.take(i as int));
            }
            if loans[i].amount > 1_000_000_000 {
                large_loan = true;
            }
            total_borrowed = total_borrowed.saturating_add(loans[i].amount);
            i = i + 1;
        }
        let mut risk_score: u32 = 0;
        if circular_trading {
            risk_score = risk_score + 30;
        }
        if swaps.len() >= 3 {
            risk_score = risk_score + 20;
        } else if swaps.len() >= 2 {
            risk_score = risk_score + 10;
        }
        if total_price_impact as u128 > 2 * (self.high_price_impact_threshold as u128) {
            risk_score = risk_score + 25;
        } else if total_price_impact > self.high_price_impact_threshold {
            risk_score = risk_score + 15;
        }
        if max_single_impact > self.price_impact_threshold {
            risk_score = risk_score + 15;
        }
        if unique_pools >= 3 {
            risk_score = risk_score + 15;
        } else if unique_pools >= 2 {
            risk_score = risk_score + 10;
        }
        if large_loan {
            risk_score = risk_score + 10;
        }
        if risk_score < 30 {
            return None;
        }
        let risk_level = if risk_score <= 49 {
            RiskLevel::Low
        } else if risk_score <= 69 {
            RiskLevel::Medium
        } else if risk_score <= 84 {
            RiskLevel::High
        } else {
            RiskLevel::Critical
        };
        let mut description = String::from_str("Flash loan arbitrage detected: ");
        push_decimal(&mut description, swaps.len() as u64);
        description.append(" swaps across ");
        push_decimal(&mut description, unique_pools as u64);
        description.append(" pools, ");
        push_all(&mut description, &format_bps(total_price_impact));
        description.append(" total price impact");
        if circular_trading {
            description.append(", circular trading pattern");
        }
        let event = RiskEvent::new(
            RiskType::FlashLoanAttack,
            risk_level,
            context.tx_digest.clone(),
            context.sender.clone(),
            context.checkpoint,
            context.timestamp_ms,
            description,
        );
        Some(
            event.with_detail(String::from_str("flash_loan_count"), DetailValue::Unsigned(loans.len() as u64))
                .with_detail(String::from_str("total_borrowed"), DetailValue::Text(format_currency(total_borrowed)))
                .with_detail(String::from_str("swap_count"), DetailValue::Unsigned(swaps.len() as u64))
                .with_detail(String::from_str("unique_pools"), DetailValue::Unsigned(unique_pools as u64))
                .with_detail(String::from_str("circular_trading"), DetailValue::Flag(circular_trading))
                .with_detail(String::from_str("total_price_impact"), DetailValue::Text(format_bps(total_price_impact)))
                .with_detail(String::from_str("max_price_impact"), DetailValue::Text(format_bps(max_single_impact)))
                .with_detail(String::from_str("risk_score"), DetailValue::Unsigned(risk_score as u64)),
        )
    }

    /// The loans taken, when at least one was taken and one repaid.
    fn extract_flash_loan_info(&self, events: &Vec<ContractEvent>) -> (r: Option<Vec<FlashLoanTaken>>)
        ensures
            match r {
                Some(v) => v@ == flash_loans_taken_in(events@) && v@.len() > 0 && repaid_count(events@) > 0,
                None => flash_loans_taken_in(events@).len() == 0 || repaid_count(events@) == 0,
            },
    {
        let mut taken: Vec<FlashLoanTaken> = Vec::new();
        let mut repaid: u64 = 0;
        let mut i: usize = 0;
        while i < events.len()
            invariant
                i <= events@.len(),
                taken@ == flash_loans_taken_in(events@.take(i as int)),
                repaid == repaid_count(events@.take(i as int)),
                repaid <= i,
            decreases events@.len() - i,
        {
            proof {
                assert(events@.take(i + 1).drop_last() =~= events@.take(i as int));
                assert(events@.take(i + 1).last() == events@[i as int]);
            }
            let ev = &events[i];
            if let Some(loan) = FlashLoanTaken::from_event(ev) {
                taken.push(loan);
            } else if matches!(classify(&ev.name), Some(EventKind::FlashLoanRepaid)) {
                repaid = repaid + 1;
            }
            i = i + 1;
        }
        proof {
            assert(events@.take(events@.len() as int) =~= events@);
        }
        if taken.len() > 0 && repaid > 0 {
            Some(taken)
        } else {
            None
        }
    }

    /// The decoded swaps of the events, with the first type parameter of each
    /// as the type of the token that goes in.
    fn extract_swap_events(&self, events: &Vec<ContractEvent>) -> (r: Vec<SwapInfo>)
        ensures
            info_views(r@) == swap_infos_in(events@),
    {
        let mut swaps: Vec<SwapInfo> = Vec::new();
        let mut i: usize = 0;
        while i < events.len()
            invariant
                i <= events@.len(),
                info_views(swaps@) == swap_infos_in(events@.take(i as int)),
            decreases events@.len() - i,
        {
            proof {
                assert(events@.take(i + 1).drop_last() =~= events@.take(i as int));
                assert(events@.take(i + 1).last() == events@[i as int]);
            }
            let ev = &events[i];
            if let Some(parsed) = SwapExecuted::from_event(ev) {
                let token_in_type = if ev.type_params.len() > 0 {
                    ev.type_params[0].clone()
                } else {
                    String::new()
                };
                let info = SwapInfo {
                    pool_id: id_text(parsed.pool_id),
                    sender: id_text(parsed.sender),
                    token_in_type,
                    amount_in: parsed.amount_in,
                    amount_out: parsed.amount_out,
                    price_impact: parsed.price_impact,
                };
                let ghost s0 = swaps@;
                swaps.push(info);
                proof {
                    assert(swaps@.drop_last() =~= s0);
                }
            }
            i = i + 1;
        }
        proof {
            assert(events@.take(events@.len() as int) =~= events@);
        }
        swaps
    }

    /// Whether the token the first swap puts in goes in again later.
    pub fn detect_circular_trading(&self, swaps: &[SwapInfo]) -> (r: bool)
        ensures
            r == circular(info_views(swaps@)),
    {
        proof {
            lemma_info_views(swaps@);
        }
        if swaps.len() < 2 {
            return false;
        }
        let start = &swaps[0].token_in_type;
        let mut k: usize = 1;
        while k < swaps.len()
            invariant
                1 <= k <= swaps@.len(),
                start@ == swaps@[0].token_in_type@,
                info_views(swaps@).len() == swaps@.len(),
                forall|i: int| 0 <= i < swaps@.len() ==> #[trigger] info_views(swaps@)[i] == swaps@[i]@,
                forall|j: int| 1 <= j < k ==> swaps@[j].token_in_type@ != start@,
            decreases swaps@.len() - k,
        {
            if swaps[k].token_in_type == *start {
                proof {
                    let v = info_views(swaps@);
                    assert(v[k as int].token_in_type == v[0].token_in_type);
                }
                return true;
            }
            k = k + 1;
        }
        proof {
            let v = info_views(swaps@);
            assert forall|j: int| 1 <= j < v.len() implies #[trigger] v[j].token_in_type != v[0].token_in_type by {
                assert(v[j] == swaps@[j]@);
            }
        }
        false
    }

    /// The number of distinct pools the swaps touch.
    pub fn count_unique_pools(&self, swaps: &[SwapInfo]) -> (r: usize)
        ensures
            r == distinct_pools(info_views(swaps@)),
    {
        let ghost all = info_views(swaps@);
        proof {
            lemma_info_views(swaps@);
        }
        let mut count: usize = 0;
        let mut i: usize = 0;
        while i < swaps.len()
            invariant
                i <= swaps@.len(),
                all == info_views(swaps@),
                all.len() == swaps@.len(),
                forall|q: int| 0 <= q < swaps@.len() ==> #[trigger] all[q] == swaps@[q]@,
                count == distinct_pools(all.take(i as int)),
                count <= i,
            decreases swaps@.len() - i,
        {
            let mut seen = false;
            let mut j: usize = 0;
            while j < i
                invariant
                    j <= i,
                    i < swaps@.len(),
                    seen == exists|k: int| 0 <= k < j && #[trigger] swaps@[k].pool_id@ == swaps@[i as int].pool_id@,
                decreases i - j,
            {
                if swaps[j].pool_id == swaps[i].pool_id {
                    seen = true;
                }
                j = j + 1;
            }
            proof {
                let t = all.take(i + 1);
                let rest = t.drop_last();
                assert(rest =~= all.take(i as int));
                assert(t.last() == swaps@[i as int]@);
                assert((exists|k: int| 0 <= k < rest.len() && #[trigger] rest[k].pool_id == t.last().pool_id) == seen) by {
                    if seen {
                        let k = choose|k: int| 0 <= k < i && #[trigger] swaps@[k].pool_id@ == swaps@[i as int].pool_id@;
                        assert(rest[k].pool_id == t.last().pool_id);
                    }
                    if exists|k: int| 0 <= k < rest.len() && #[trigger] rest[k].pool_id == t.last().pool_id {
                        let k = choose|k: int| 0 <= k < rest.len() && #[trigger] rest[k].pool_id == t.last().pool_id;
                        assert(swaps@[k].pool_id@ == swaps@[i as int].pool_id@);
                    }
                }
            }
            if !seen {
                count = count + 1;
            }
            i = i + 1;
        }
        proof {
            assert(all.take(i as int) =~= all);
        }
        count
    }

    /// The total price impact of the swaps, saturating at the largest `u64`.
    pub fn calculate_total_price_impact(&self, swaps: &[SwapInfo]) -> (r: u64)
        ensures
            r == clamp_u64(impact_sum(info_views(swaps@))),
    {
        let ghost all = info_views(swaps@);
        proof {
            lemma_info_views(swaps@);
        }
        let mut total: u64 = 0;
        let mut i: usize = 0;
        while i < swaps.len()
            invariant
                i <= swaps@.len(),
                all == info_views(swaps@),
                all.len() == swaps@.len(),
                forall|q: int| 0 <= q < swaps@.len() ==> #[trigger] all[q] == swaps@[q]@,
                total == clamp_u64(impact_sum(all.take(i as int))),
            decreases swaps@.len() - i,
        {
            proof {
                assert(all.take(i + 1).drop_last() =~= all.take(i as int));
                assert(all.take(i + 1).last() == swaps@[i as int]@);
            }
            total = total.saturating_add(swaps[i].price_impact);
            i = i + 1;
        }
        proof {
            assert(all.take(i as int) =~= all);
        }
        total
    }

    /// The largest price impact of a single swap, 0 when there is none.
    pub fn calculate_max_price_impact(&self, swaps: &[SwapInfo]) -> (r: u64)
        ensures
            r == impact_max(info_views(swaps@)),
    {
        let ghost all = info_views(swaps@);
        proof {
            lemma_info_views(swaps@);
        }
        let mut best: u64 = 0;
        let mut i: usize = 0;
        while i < swaps.len()
            invariant
                i <= swaps@.len(),
                all == info_views(swaps@),
                all.len() == swaps@.len(),
                forall|q: int| 0 <= q < swaps@.len() ==> #[trigger] all[q] == swaps@[q]@,
                best == impact_max(all.take(i as int)),
            decreases swaps@.len() - i,
        {
            proof {
                assert(all.take(i + 1).drop_last() =~= all.take(i as int));
                assert(all.take(i + 1).last() == swaps@[i as int]@);
            }
            if swaps[i].price_impact > best {
                best = swaps[i].price_impact;
            }
            i = i + 1;
        }
        proof {
            assert(all.take(i as int) =~= all);
        }
        best
    }
}

} // verus!
