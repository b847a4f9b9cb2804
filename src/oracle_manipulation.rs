//! Oracle manipulation through a lending market: within one transaction a flash
//! loan, a large swap that moves the pool price, and a borrow priced by an
//! oracle that diverges from the pool's price before the swap.

use vstd::prelude::*;
use vstd::string::*;
use crate::events::{
    borrows_in, clamp_u64, classify, kind_of, swaps_in, BorrowEvent, ContractEvent, EventKind,
    FlashLoanTaken, SwapExecuted,
};
use crate::risk::{reports, DetailValue, DetectionContext, RiskEvent, RiskLevel, RiskType};
use crate::text::{format_bps, format_currency, grouped, percent_text, push_all};

verus! {

/// A large swap as the oracle analysis sees it; reserves are after the swap.
#[derive(Clone, Copy, Debug, PartialEq, Eq, Structural)]
pub struct SwapInfo {
    /// `true` when token A goes in.
    pub token_in: bool,
    pub amount_in: u64,
    pub amount_out: u64,
    pub price_impact: u64,
    pub reserve_a_before: u64,
    pub reserve_a_after: u64,
    pub reserve_b_after: u64,
    pub timestamp: u64,
}

/// A lending borrow as the oracle analysis sees it.
#[derive(Clone, Copy, Debug, PartialEq, Eq, Structural)]
pub struct BorrowInfo {
    pub borrow_amount: u64,
    pub collateral_value: u64,
    pub oracle_price: u64,
    pub health_factor: u64,
    pub timestamp: u64,
}

/// The amount of the last decodable loan taken before the first repayment that
/// follows a loan, scanning from `has_taken` and `amount`.
pub open spec fn loan_scan(evs: Seq<ContractEvent>, has_taken: bool, amount: u64) -> Option<u64>
    decreases evs.len(),
{
    if evs.len() == 0 {
        None
    } else {
        let e = evs[0];
        let taken = kind_of(e.name@) == Some(EventKind::FlashLoanTaken);
        let h = has_taken || taken;
        let a = if taken {
            match FlashLoanTaken::of_event(e) {
                Some(l) => l.amount,
                None => amount,
            }
        } else {
            amount
        };
        if kind_of(e.name@) == Some(EventKind::FlashLoanRepaid) && h {
            Some(a)
        } else {
            loan_scan(evs.drop_first(), h, a)
        }
    }
}

/// The flash loan of a transaction: taken, then repaid.
pub open spec fn flash_loan_of(evs: Seq<ContractEvent>) -> Option<u64> {
    loan_scan(evs, false, 0)
}

/// The swaps whose price impact is at least 500 basis points.
pub open spec fn large_swaps(swaps: Seq<SwapExecuted>) -> Seq<SwapInfo>
    decreases swaps.len(),
{
    if swaps.len() == 0 {
        Seq::empty()
    } else {
        let s = swaps.last();
        if s.price_impact >= 500 {
            large_swaps(swaps.drop_last()).push(SwapInfo {
                token_in: s.token_in,
                amount_in: s.amount_in,
                amount_out: s.amount_out,
                price_impact: s.price_impact,
                reserve_a_before: 0,
                reserve_a_after: s.reserve_a,
                reserve_b_after: s.reserve_b,
                timestamp: 0,
            })
        } else {
            large_swaps(swaps.drop_last())
        }
    }
}

/// The borrows of at least `min_amount`.
pub open spec fn large_borrows(borrows: Seq<BorrowEvent>, min_amount: u64) -> Seq<BorrowInfo>
    decreases borrows.len(),
{
    if borrows.len() == 0 {
        Seq::empty()
    } else {
        let b = borrows.last();
        if b.borrow_amount >= min_amount {
            large_borrows(borrows.drop_last(), min_amount).push(BorrowInfo {
                borrow_amount: b.borrow_amount,
                collateral_value: b.collateral_value,
                oracle_price: b.oracle_price,
                health_factor: b.health_factor,
                timestamp: 0,
            })
        } else {
            large_borrows(borrows.drop_last(), min_amount)
        }
    }
}

/// Reserve A before the swap, 0 where the inversion leaves the `u64` range.
pub open spec fn reserve_a_pre(s: SwapInfo) -> int {
    if s.token_in {
        if s.reserve_a_after >= s.amount_in { s.reserve_a_after - s.amount_in } else { 0 }
    } else {
        if s.reserve_a_after + s.amount_out <= u64::MAX { s.reserve_a_after + s.amount_out } else { 0 }
    }
}

/// Reserve B before the swap, 0 where the inversion leaves the `u64` range.
pub open spec fn reserve_b_pre(s: SwapInfo) -> int {
    if s.token_in {
        if s.reserve_b_after + s.amount_out <= u64::MAX { s.reserve_b_after + s.amount_out } else { 0 }
    } else {
        if s.reserve_b_after >= s.amount_in { s.reserve_b_after - s.amount_in } else { 0 }
    }
}

/// The pool price of token A in B before the swap, scaled by 1e9; 0 when
/// reserve A before the swap is 0.
pub open spec fn normal_price_of(s: SwapInfo) -> u64 {
    if reserve_a_pre(s) == 0 {
        0
    } else {
        clamp_u64((reserve_b_pre(s) * 1_000_000_000 / reserve_a_pre(s)) as nat)
    }
}

/// The distance between two positive prices relative to the smaller, in basis
/// points.
pub open spec fn deviation_bps(oracle: u64, normal: u64) -> u64 {
    if oracle > normal {
        clamp_u64(((oracle - normal) * 10000 / normal as int) as nat)
    } else {
        clamp_u64(((normal - oracle) * 10000 / oracle as int) as nat)
    }
}

/// The collateral valued at the normal price instead of the oracle's.
pub open spec fn real_collateral(collateral: u64, normal: u64, oracle: u64) -> u64 {
    clamp_u64((collateral * normal / oracle as int) as nat)
}

/// The level of an oracle-manipulation score of at least 40.
pub open spec fn oracle_level(score: u32) -> RiskLevel {
    if score <= 59 {
        RiskLevel::Medium
    } else if score <= 79 {
        RiskLevel::High
    } else {
        RiskLevel::Critical
    }
}

/// The score of the signals of a borrow against a normal price.
pub open spec fn oracle_score_of(deviation: u64, b: BorrowInfo, normal: u64) -> u32 {
    let valued = real_collateral(b.collateral_value, normal, b.oracle_price);
    let loss: int = if b.borrow_amount > valued { b.borrow_amount - valued } else { 0 };
    (20int
        + (if deviation >= 5000 { 40int } else if deviation >= 2000 { 30int } else if deviation >= 1000 { 20int } else { 0int })
        + (if b.borrow_amount > 10_000_000_000 { 20int } else if b.borrow_amount > 1_000_000_000 { 15int } else { 0int })
        + (if loss > b.borrow_amount / 2 { 20int } else if loss > 0 { 10int } else { 0int })
        + (if b.health_factor > 15000 { 10int } else { 0int })) as u32
}

/// The description of a borrow against a normal price.
pub open spec fn oracle_description(deviation: u64, b: BorrowInfo, normal: u64) -> Seq<char> {
    let valued = real_collateral(b.collateral_value, normal, b.oracle_price);
    let loss: int = if b.borrow_amount > valued { b.borrow_amount - valued } else { 0 };
    "Oracle manipulation: "@ + percent_text(deviation as nat) + " price inflation, $"@ + grouped(
        (b.borrow_amount / 1_000_000) as nat,
    ) + " borrow, $"@ + grouped((loss / 1_000_000) as nat) + " potential protocol loss"@
}

/// Oracle manipulation analyzer.
pub struct OracleManipulationAnalyzer {
    /// Least deviation between oracle and normal price to flag, in bps.
    pub min_price_deviation: u64,
    /// Least borrow amount to analyze.
    pub min_borrow_amount: u64,
}

impl OracleManipulationAnalyzer {
    /// The description of a report on a transaction that has a score.
    pub open spec fn description(&self, evs: Seq<ContractEvent>) -> Seq<char> {
        let swaps = large_swaps(swaps_in(evs));
        let borrows = large_borrows(borrows_in(evs), self.min_borrow_amount);
        let normal = normal_price_of(swaps[0]);
        oracle_description(deviation_bps(borrows[0].oracle_price, normal), borrows[0], normal)
    }

    /// The score of a transaction, or none when a signal is missing, a price
    /// is zero or the deviation is below the minimum.
    pub open spec fn score(&self, evs: Seq<ContractEvent>) -> Option<u32> {
        let swaps = large_swaps(swaps_in(evs));
        let borrows = large_borrows(borrows_in(evs), self.min_borrow_amount);
        if flash_loan_of(evs) is None || swaps.len() == 0 || borrows.len() == 0 {
            None
        } else {
            let oracle = borrows[0].oracle_price;
            let normal = normal_price_of(swaps[0]);
            if oracle == 0 || normal == 0 {
                None
            } else if deviation_bps(oracle, normal) < self.min_price_deviation {
                None
            } else {
                Some(oracle_score_of(deviation_bps(oracle, normal), borrows[0], normal))
            }
        }
    }

    /// What `analyze` returns: an `OracleManipulation` event when the score
    /// reaches 40, at the level of the score, and nothing otherwise.
    pub open spec fn outcome(&self, evs: Seq<ContractEvent>, ctx: DetectionContext, r: Option<RiskEvent>) -> bool {
        match self.score(evs) {
            Some(s) => if s >= 40 {
                r matches Some(e) && e.description@ == self.description(evs) && reports(
                    e,
                    RiskType::OracleManipulation,
                    oracle_level(s),
                    ctx.tx_digest@,
                    ctx.sender@,
                    ctx.checkpoint,
                    ctx.timestamp_ms,
                    s,
                )
            } else {
                r is None
            },
            None => r is None,
        }
    }

    pub fn new() -> (r: Self)
        ensures
            r.min_price_deviation == 1000,
            r.min_borrow_amount == 100_000_000,
    {
        OracleManipulationAnalyzer { min_price_deviation: 1000, min_borrow_amount: 100_000_000 }
    }

    /// Scores one transaction's events.
    pub fn analyze(&self, events: &Vec<ContractEvent>, context: &DetectionContext) -> (r: Option<RiskEvent>)
        ensures
            self.outcome(events@, *context, r),
    {
        let loan_amount = match self.extract_flash_loan_info(events) {
            Some(a) => a,
            None => return None,
        };
        let large_swaps = self.extract_large_swaps(events);
        if large_swaps.len() == 0 {
            return None;
        }
        let lending_borrows = self.extract_lending_borrows(events);
        if lending_borrows.len() == 0 {
            return None;
        }
        let borrow = lending_borrows[0];
        let oracle_price = borrow.oracle_price;
        let normal_price = self.estimate_normal_price(large_swaps.as_slice());
        if oracle_price == 0 || normal_price == 0 {
            return None;
        }
        let price_deviation = if oracle_price > normal_price {
            clamp_to_u64((oracle_price - normal_price) as u128 * 10000 / normal_price as u128)
        } else {
            clamp_to_u64((normal_price - oracle_price) as u128 * 10000 / oracle_price as u128)
        };
        if price_deviation < self.min_price_deviation {
            return None;
        }
        let collateral_value = borrow.collateral_value;
        let borrow_amount = borrow.borrow_amount;
        proof {
            let c = collateral_value as int;
            let p = normal_price as int;
            assert(0 <= c * p <= 0xffff_ffff_ffff_ffff * 0xffff_ffff_ffff_ffff) by (nonlinear_arith)
                requires
                    0 <= c <= 0xffff_ffff_ffff_ffff,
                    0 <= p <= 0xffff_ffff_ffff_ffff,
            ;
        }
        let real_collateral_value = clamp_to_u64(
            collateral_value as u128 * normal_price as u128 / oracle_price as u128,
        );
        let protocol_loss = if borrow_amount > real_collateral_value {
            borrow_amount - real_collateral_value
        } else {
            0
        };
        let mut risk_score: u32 = 20;
        if price_deviation >= 5000 {
            risk_score = risk_score + 40;
        } else if price_deviation >= 2000 {
            risk_score = risk_score + 30;
        } else if price_deviation >= 1000 {
            risk_score = risk_score + 20;
        }
        if borrow_amount > 10_000_000_000 {
            risk_score = risk_score + 20;
        } else if borrow_amount > 1_000_000_000 {
            risk_score = risk_score + 15;
        }
        if protocol_loss > borrow_amount / 2 {
            risk_score = risk_score + 20;
        } else if protocol_loss > 0 {
            risk_score = risk_score + 10;
        }
        let health_factor = borrow.health_factor;
        if health_factor > 15000 {
            risk_score = risk_score + 10;
        }
        if risk_score < 40 {
            return None;
        }
        let risk_level = if risk_score <= 59 {
            RiskLevel::Medium
        } else if risk_score <= 79 {
            RiskLevel::High
        } else {
            RiskLevel::Critical
        };
        let mut description = String::from_str("Oracle manipulation: ");
        push_all(&mut description, &format_bps(price_deviation));
        description.append(" price inflation, $");
        push_all(&mut description, &format_currency(borrow_amount / 1_000_000));
        description.append(" borrow, $");
        push_all(&mut description, &format_currency(protocol_loss / 1_000_000));
        description.append(" potential protocol loss");
        let event = RiskEvent::new(
            RiskType::OracleManipulation,
            risk_level,
            context.tx_digest.clone(),
            context.sender.clone(),
            context.checkpoint,
            context.timestamp_ms,
            description,
        );
        Some(
            event.with_detail(String::from_str("flash_loan_amount"), DetailValue::Text(format_currency(loan_amount)))
                .with_detail(String::from_str("swap_count"), DetailValue::Unsigned(large_swaps.len() as u64))
                .with_detail(String::from_str("oracle_price"), DetailValue::Text(format_currency(oracle_price)))
                .with_detail(String::from_str("normal_price"), DetailValue::Text(format_currency(normal_price)))
                .with_detail(String::from_str("price_deviation"), DetailValue::Text(format_bps(price_deviation)))
                .with_detail(String::from_str("borrow_amount"), DetailValue::Text(format_currency(borrow_amount)))
                .with_detail(String::from_str("collateral_value"), DetailValue::Text(format_currency(collateral_value)))
                .with_detail(
                    String::from_str("real_collateral_value"),
                    DetailValue::Text(format_currency(real_collateral_value)),
                )
                .with_detail(String::from_str("protocol_loss"), DetailValue::Text(format_currency(protocol_loss)))
                .with_detail(String::from_str("health_factor"), DetailValue::Unsigned(health_factor))
                .with_detail(String::from_str("risk_score"), DetailValue::Unsigned(risk_score as u64)),
        )
    }

    /// The amount of the flash loan taken and then repaid, if any.
    fn extract_flash_loan_info(&self, events: &Vec<ContractEvent>) -> (r: Option<u64>)
        ensures
            r == flash_loan_of(events@),
    {
        let mut has_taken = false;
        let mut amount: u64 = 0;
        let mut i: usize = 0;
        assert(events@.subrange(0, events@.len() as int) =~= events@);
        while i < events.len()
            invariant
                i <= events@.len(),
                flash_loan_of(events@) == loan_scan(events@.subrange(i as int, events@.len() as int), has_taken, amount),
            decreases events@.len() - i,
        {
            let ghost rest = events@.subrange(i as int, events@.len() as int);
            proof {
                assert(rest.drop_first() =~= events@.subrange(i + 1, events@.len() as int));
                assert(rest[0] == events@[i as int]);
            }
            let ev = &events[i];
            let kind = classify(&ev.name);
            if matches!(kind, Some(EventKind::FlashLoanTaken)) {
                has_taken = true;
                if let Some(parsed) = FlashLoanTaken::from_event(ev) {
                    amount = parsed.amount;
                }
            }
            if matches!(kind, Some(EventKind::FlashLoanRepaid)) && has_taken {
                return Some(amount);
            }
            i = i + 1;
        }
        None
    }

    /// The swaps with a price impact of at least 500 basis points.
    fn extract_large_swaps(&self, events: &Vec<ContractEvent>) -> (r: Vec<SwapInfo>)
        ensures
            r@ == large_swaps(swaps_in(events@)),
    {
        let mut swaps: Vec<SwapInfo> = Vec::new();
        let mut i: usize = 0;
        while i < events.len()
            invariant
                i <= events@.len(),
                swaps@ == large_swaps(swaps_in(events@.take(i as int))),
            decreases events@.len() - i,
        {
            proof {
                assert(events@.take(i + 1).drop_last() =~= events@.take(i as int));
                assert(events@.take(i + 1).last() == events@[i as int]);
            }
            if let Some(parsed) = SwapExecuted::from_event(&events[i]) {
                proof {
                    let before = swaps_in(events@.take(i as int));
                    assert(before.push(parsed).drop_last() =~= before);
                }
                if parsed.price_impact >= 500 {
                    swaps.push(
                        SwapInfo {
                            token_in: parsed.token_in,
                            amount_in: parsed.amount_in,
                            amount_out: parsed.amount_out,
                            price_impact: parsed.price_impact,
                            reserve_a_before: 0,
                            reserve_a_after: parsed.reserve_a,
                            reserve_b_after: parsed.reserve_b,
                            timestamp: 0,
                        },
                    );
                }
            }
            i = i + 1;
        }
        proof {
            assert(events@.take(events@.len() as int) =~= events@);
        }
        swaps
    }

    /// The borrows of at least the minimum amount.
    fn extract_lending_borrows(&self, events: &Vec<ContractEvent>) -> (r: Vec<BorrowInfo>)
        ensures
            r@ == large_borrows(borrows_in(events@), self.min_borrow_amount),
    {
        let mut borrows: Vec<BorrowInfo> = Vec::new();
        let mut i: usize = 0;
        while i < events.len()
            invariant
                i <= events@.len(),
                borrows@ == large_borrows(borrows_in(events@.take(i as int)), self.min_borrow_amount),
            decreases events@.len() - i,
        {
            proof {
                assert(events@.take(i + 1).drop_last() =~= events@.take(i as int));
                assert(events@.take(i + 1).last() == events@[i as int]);
            }
            if let Some(parsed) = BorrowEvent::from_event(&events[i]) {
                proof {
                    let before = borrows_in(events@.take(i as int));
                    assert(before.push(parsed).drop_last() =~= before);
                }
                if parsed.borrow_amount >= self.min_borrow_amount {
                    borrows.push(
                        BorrowInfo {
                            borrow_amount: parsed.borrow_amount,
                            collateral_value: parsed.collateral_value,
                            oracle_price: parsed.oracle_price,
                            health_factor: parsed.health_factor,
                            timestamp: 0,
                        },
                    );
                }
            }
            i = i + 1;
        }
        proof {
            assert(events@.take(events@.len() as int) =~= events@);
        }
        borrows
    }

    /// The pool price before the first swap, reconstructed from its reported
    /// reserves; 0 when there is no swap or reserve A before it is 0.
    pub fn estimate_normal_price(&self, swaps: &[SwapInfo]) -> (r: u64)
        ensures
            r == if swaps@.len() == 0 { 0 } else { normal_price_of(swaps@[0]) },
    {
        if swaps.len() == 0 {
            return 0;
        }
        let swap = swaps[0];
        let (reserve_a_pre, reserve_b_pre) = if swap.token_in {
            (
                match swap.reserve_a_after.checked_sub(swap.amount_in) {
                    Some(v) => v,
                    None => 0,
                },
                match swap.reserve_b_after.checked_add(swap.amount_out) {
                    Some(v) => v,
                    None => 0,
                },
            )
        } else {
            (
                match swap.reserve_a_after.checked_add(swap.amount_out) {
                    Some(v) => v,
                    None => 0,
                },
                match swap.reserve_b_after.checked_sub(swap.amount_in) {
                    Some(v) => v,
                    None => 0,
                },
            )
        };
        if reserve_a_pre == 0 {
            return 0;
        }
        clamp_to_u64(reserve_b_pre as u128 * 1_000_000_000 / reserve_a_pre as u128)
    }
}

/// A 128-bit value capped at the largest `u64`.
fn clamp_to_u64(x: u128) -> (r: u64)
    ensures
        r == clamp_u64(x as nat),
{
    if x > u64::MAX as u128 {
        u64::MAX
    } else {
        x as u64
    }
}

/// When the reserve A that the first large swap leaves after inversion is 0,
/// no oracle manipulation is reported.
pub proof fn lemma_zero_reserve_absent(a: OracleManipulationAnalyzer, evs: Seq<ContractEvent>)
    requires
        large_swaps(swaps_in(evs)).len() > 0,
        reserve_a_pre(large_swaps(swaps_in(evs))[0]) == 0,
    ensures
        a.score(evs) is None,
{
}

} // verus!
