//! Sandwich detection across transactions: a bounded buffer of recent swaps is
//! searched for a front-run by the same sender in the opposite direction with a
//! victim from another sender trading between the two legs.

use vstd::prelude::*;
use vstd::string::*;
use std::collections::VecDeque;
use crate::events::{swaps_in, ContractEvent, SwapExecuted};
use crate::risk::{reports, DetailValue, DetectionContext, RiskEvent, RiskLevel, RiskType};
use crate::text::{
    format_bps, format_currency, grouped, hex_id, id_text, percent_text, push_all, push_signed, signed_decimal,
};

verus! {

/// One swap observed in a transaction, as the sandwich search sees it.
#[derive(Clone, Debug)]
pub struct SwapPattern {
    pub tx_digest: String,
    pub sender: String,
    pub pool_id: String,
    pub checkpoint: i64,
    pub timestamp_ms: i64,
    /// `true` when token A goes in.
    pub token_in_direction: bool,
    pub amount_in: u64,
    pub amount_out: u64,
    /// Price impact in basis points.
    pub price_impact: u64,
}

/// The value of a `SwapPattern`.
pub struct PatternView {
    pub tx_digest: Seq<char>,
    pub sender: Seq<char>,
    pub pool_id: Seq<char>,
    pub checkpoint: i64,
    pub timestamp_ms: i64,
    pub token_in_direction: bool,
    pub amount_in: u64,
    pub amount_out: u64,
    pub price_impact: u64,
}

impl View for SwapPattern {
    type V = PatternView;

    open spec fn view(&self) -> PatternView {
        PatternView {
            tx_digest: self.tx_digest@,
            sender: self.sender@,
            pool_id: self.pool_id@,
            checkpoint: self.checkpoint,
            timestamp_ms: self.timestamp_ms,
            token_in_direction: self.token_in_direction,
            amount_in: self.amount_in,
            amount_out: self.amount_out,
            price_impact: self.price_impact,
        }
    }
}

impl SwapPattern {
    /// A copy with the same value.
    pub fn copied(&self) -> (r: Self)
        ensures
            r@ == self@,
    {
        SwapPattern {
            tx_digest: self.tx_digest.clone(),
            sender: self.sender.clone(),
            pool_id: self.pool_id.clone(),
            checkpoint: self.checkpoint,
            timestamp_ms: self.timestamp_ms,
            token_in_direction: self.token_in_direction,
            amount_in: self.amount_in,
            amount_out: self.amount_out,
            price_impact: self.price_impact,
        }
    }
}

/// The values of a sequence of patterns.
pub open spec fn views(s: Seq<SwapPattern>) -> Seq<PatternView>
    decreases s.len(),
{
    if s.len() == 0 {
        Seq::empty()
    } else {
        views(s.drop_last()).push(s.last()@)
    }
}

pub proof fn lemma_views(s: Seq<SwapPattern>)
    ensures
        views(s).len() == s.len(),
        forall|i: int| 0 <= i < s.len() ==> #[trigger] views(s)[i] == s[i]@,
    decreases s.len(),
{
    if s.len() > 0 {
        lemma_views(s.drop_last());
    }
}

/// A detected front-run, victim and back-run.
#[derive(Clone, Debug)]
pub struct SandwichMatch {
    pub front_run: SwapPattern,
    pub victim: SwapPattern,
    pub back_run: SwapPattern,
    pub attacker_profit: u64,
    pub victim_loss_bps: u64,
}

/// `f` can be the front-run of the back-run `b`: same pool and sender, opposite
/// direction, not later, and at most `max_distance` checkpoints earlier.
pub open spec fn front_run_fits(f: PatternView, b: PatternView, max_distance: i64) -> bool {
    &&& f.pool_id == b.pool_id
    &&& f.checkpoint <= b.checkpoint
    &&& f.sender == b.sender
    &&& f.token_in_direction != b.token_in_direction
    &&& b.checkpoint - f.checkpoint <= max_distance
}

/// `v` can be the victim between front-run `f` and back-run `b`: same pool,
/// another sender, the front-run's direction, and between the two legs (by
/// timestamp where checkpoints tie).
pub open spec fn victim_fits(v: PatternView, f: PatternView, b: PatternView) -> bool {
    &&& v.pool_id == b.pool_id
    &&& f.checkpoint <= v.checkpoint <= b.checkpoint
    &&& (v.checkpoint > f.checkpoint || v.timestamp_ms >= f.timestamp_ms)
    &&& (v.checkpoint < b.checkpoint || v.timestamp_ms <= b.timestamp_ms)
    &&& v.sender != b.sender
    &&& v.token_in_direction == f.token_in_direction
}

/// The position of the first victim for `f` and `b` at or after `j`.
pub open spec fn first_victim(buf: Seq<PatternView>, f: PatternView, b: PatternView, j: int) -> Option<int>
    decreases buf.len() - j,
{
    if j < 0 || j >= buf.len() {
        None
    } else if victim_fits(buf[j], f, b) {
        Some(j)
    } else {
        first_victim(buf, f, b, j + 1)
    }
}

/// The positions of the first front-run at or after `i` that has a victim,
/// with its first victim.
pub open spec fn first_sandwich(buf: Seq<PatternView>, b: PatternView, max_distance: i64, i: int) -> Option<(int, int)>
    decreases buf.len() - i,
{
    if i < 0 || i >= buf.len() {
        None
    } else if front_run_fits(buf[i], b, max_distance) && first_victim(buf, buf[i], b, 0) is Some {
        Some((i, first_victim(buf, buf[i], b, 0)->0))
    } else {
        first_sandwich(buf, b, max_distance, i + 1)
    }
}

/// What the front-run's seller gained: the back-run's output over the
/// front-run's input, or nothing.
pub open spec fn profit_of(f: PatternView, b: PatternView) -> u64 {
    if b.amount_out > f.amount_in { (b.amount_out - f.amount_in) as u64 } else { 0 }
}

/// The output the victim would have had without the front-run's price impact,
/// with the divisor kept at least 1 and the result capped at the largest `u64`.
pub open spec fn expected_output_of(v: PatternView, f: PatternView) -> u64 {
    let divisor: int = if f.price_impact < 10000 { 10000 - f.price_impact } else { 1 };
    let e: int = v.amount_out * 10000 / divisor;
    if e > u64::MAX { u64::MAX } else { e as u64 }
}

/// The victim's shortfall against the expected output, in basis points.
pub open spec fn loss_bps_of(v: PatternView, f: PatternView) -> u64 {
    let e = expected_output_of(v, f);
    if e > v.amount_out { ((e - v.amount_out) * 10000 / e as int) as u64 } else { 0 }
}

/// The risk score of a sandwich.
pub open spec fn sandwich_score(f: PatternView, v: PatternView, b: PatternView) -> u32 {
    match_score(profit_of(f, b), loss_bps_of(v, f), f, b)
}

/// The risk score of a match from the attacker's profit, the victim's loss in
/// basis points and the two legs of the attacker.
pub open spec fn match_score(profit: u64, loss: u64, f: PatternView, b: PatternView) -> u32 {
    ((if profit > 1_000_000_000 { 40int } else if profit > 100_000_000 { 30int } else if profit > 0 { 20int } else { 0int })
        + (if loss > 1000 { 30int } else if loss > 500 { 20int } else if loss > 100 { 10int } else { 0int })
        + (if f.checkpoint == b.checkpoint { 10int } else { 0int })
        + (if b.timestamp_ms - f.timestamp_ms < 5000 { 10int } else { 0int })) as u32
}

/// The level of a sandwich score: below 30 `Low`, below 50 `Medium`, below 70
/// `High`, else `Critical`.
pub open spec fn sandwich_level(score: u32) -> RiskLevel {
    if score < 30 {
        RiskLevel::Low
    } else if score < 50 {
        RiskLevel::Medium
    } else if score < 70 {
        RiskLevel::High
    } else {
        RiskLevel::Critical
    }
}

/// The pattern a decoded swap gives within a transaction.
pub open spec fn pattern_of(s: SwapExecuted, ctx: DetectionContext) -> PatternView {
    PatternView {
        tx_digest: ctx.tx_digest@,
        sender: hex_id(s.sender),
        pool_id: hex_id(s.pool_id),
        checkpoint: ctx.checkpoint,
        timestamp_ms: ctx.timestamp_ms,
        token_in_direction: s.token_in,
        amount_in: s.amount_in,
        amount_out: s.amount_out,
        price_impact: s.price_impact,
    }
}

/// The patterns of the swaps whose price impact reaches `min_impact`.
pub open spec fn patterns_of(swaps: Seq<SwapExecuted>, ctx: DetectionContext, min_impact: u64) -> Seq<PatternView>
    decreases swaps.len(),
{
    if swaps.len() == 0 {
        Seq::empty()
    } else if swaps.last().price_impact >= min_impact {
        patterns_of(swaps.drop_last(), ctx, min_impact).push(pattern_of(swaps.last(), ctx))
    } else {
        patterns_of(swaps.drop_last(), ctx, min_impact)
    }
}

/// The sandwiches that the patterns `pats` complete against the buffer `buf`,
/// as (front-run, victim, back-run), in the order of the back-runs.
pub open spec fn sandwiches(buf: Seq<PatternView>, pats: Seq<PatternView>, max_distance: i64) -> Seq<(PatternView, PatternView, PatternView)>
    decreases pats.len(),
{
    if pats.len() == 0 {
        Seq::empty()
    } else {
        let rest = sandwiches(buf, pats.drop_last(), max_distance);
        match first_sandwich(buf, pats.last(), max_distance, 0) {
            Some((i, j)) => rest.push((buf[i], buf[j], pats.last())),
            None => rest,
        }
    }
}

/// The buffer after appending `p`, dropping the oldest entry when full.
pub open spec fn buffer_push(buf: Seq<PatternView>, p: PatternView, capacity: nat) -> Seq<PatternView> {
    if buf.len() >= capacity { buf.drop_first().push(p) } else { buf.push(p) }
}

/// The buffer after appending each of `pats` in order.
pub open spec fn buffer_push_all(buf: Seq<PatternView>, pats: Seq<PatternView>, capacity: nat) -> Seq<PatternView>
    decreases pats.len(),
{
    if pats.len() == 0 {
        buf
    } else {
        buffer_push(buffer_push_all(buf, pats.drop_last(), capacity), pats.last(), capacity)
    }
}

/// Whether an entry is recent enough to be kept at checkpoint `current`.
pub open spec fn is_recent(p: PatternView, current: i64, max_distance: i64) -> bool {
    current - p.checkpoint <= 2 * max_distance
}

/// The entries of the buffer that are recent enough, in order.
pub open spec fn recent(buf: Seq<PatternView>, current: i64, max_distance: i64) -> Seq<PatternView>
    decreases buf.len(),
{
    if buf.len() == 0 {
        Seq::empty()
    } else if is_recent(buf.last(), current, max_distance) {
        recent(buf.drop_last(), current, max_distance).push(buf.last())
    } else {
        recent(buf.drop_last(), current, max_distance)
    }
}

pub proof fn lemma_recent(buf: Seq<PatternView>, current: i64, max_distance: i64)
    ensures
        recent(buf, current, max_distance).len() <= buf.len(),
        forall|i: int| 0 <= i < recent(buf, current, max_distance).len() ==>
            is_recent(#[trigger] recent(buf, current, max_distance)[i], current, max_distance),
    decreases buf.len(),
{
    if buf.len() > 0 {
        lemma_recent(buf.drop_last(), current, max_distance);
    }
}

/// Whether `e` reports the sandwich (`f`, `v`, `b`).
pub open spec fn reports_sandwich(e: RiskEvent, f: PatternView, v: PatternView, b: PatternView) -> bool {
    reports_match(e, profit_of(f, b), loss_bps_of(v, f), f, b)
}

/// The time between the attacker's legs, kept within the `i64` range.
pub open spec fn time_span(f: PatternView, b: PatternView) -> i64 {
    let d = b.timestamp_ms - f.timestamp_ms;
    if d > i64::MAX { i64::MAX } else if d < i64::MIN { i64::MIN } else { d as i64 }
}

/// The description of a sandwich.
pub open spec fn sandwich_description(profit: u64, loss: u64, f: PatternView, b: PatternView) -> Seq<char> {
    "Sandwich attack: attacker profit "@ + grouped(profit as nat) + ", victim loss "@ + percent_text(loss as nat)
        + ", time span "@ + signed_decimal(time_span(f, b) as int) + "ms"@
}

/// Whether `e` reports a sandwich with the given profit and loss whose legs
/// are `f` and `b`.
pub open spec fn reports_match(e: RiskEvent, profit: u64, loss: u64, f: PatternView, b: PatternView) -> bool {
    let score = match_score(profit, loss, f, b);
    &&& e.description@ == sandwich_description(profit, loss, f, b)
    &&& reports(e, RiskType::SandwichAttack, sandwich_level(score), b.tx_digest, b.sender, b.checkpoint, b.timestamp_ms, score)
}

/// In every sandwich found, the front-run and back-run share their sender and
/// pool and go in opposite directions, and the victim trades on that pool in
/// the front-run's direction from another sender.
pub proof fn lemma_sandwich_roles(buf: Seq<PatternView>, pats: Seq<PatternView>, max_distance: i64, k: int)
    requires
        0 <= k < sandwiches(buf, pats, max_distance).len(),
    ensures
        ({
            let (f, v, b) = sandwiches(buf, pats, max_distance)[k];
            &&& f.sender == b.sender
            &&& v.sender != b.sender
            &&& f.pool_id == b.pool_id
            &&& v.pool_id == b.pool_id
            &&& f.token_in_direction != b.token_in_direction
            &&& v.token_in_direction == f.token_in_direction
        }),
    decreases pats.len(),
{
    let rest = sandwiches(buf, pats.drop_last(), max_distance);
    if k < rest.len() {
        lemma_sandwich_roles(buf, pats.drop_last(), max_distance, k);
    } else {
        lemma_first_sandwich_fits(buf, pats.last(), max_distance, 0);
    }
}

proof fn lemma_first_victim_fits(buf: Seq<PatternView>, f: PatternView, b: PatternView, j0: int)
    ensures
        first_victim(buf, f, b, j0) matches Some(j) ==> 0 <= j < buf.len() && victim_fits(buf[j], f, b),
    decreases buf.len() - j0,
{
    if 0 <= j0 < buf.len() && !victim_fits(buf[j0], f, b) {
        lemma_first_victim_fits(buf, f, b, j0 + 1);
    }
}

proof fn lemma_first_sandwich_fits(buf: Seq<PatternView>, b: PatternView, max_distance: i64, i0: int)
    ensures
        first_sandwich(buf, b, max_distance, i0) matches Some((i, j)) ==> 0 <= i < buf.len() && 0 <= j
            < buf.len() && front_run_fits(buf[i], b, max_distance) && victim_fits(buf[j], buf[i], b),
    decreases buf.len() - i0,
{
    if 0 <= i0 < buf.len() {
        if front_run_fits(buf[i0], b, max_distance) && first_victim(buf, buf[i0], b, 0) is Some {
            lemma_first_victim_fits(buf, buf[i0], b, 0);
        } else {
            lemma_first_sandwich_fits(buf, b, max_distance, i0 + 1);
        }
    }
}

/// A back-run that yields no more than the front-run put in gives the attacker
/// no profit.
pub proof fn lemma_no_profit(f: PatternView, b: PatternView)
    requires
        b.amount_out <= f.amount_in,
    ensures
        profit_of(f, b) == 0,
{
}

/// Sandwich analyzer holding recent swaps across transactions.
pub struct SandwichAnalyzer {
    transaction_buffer: VecDeque<SwapPattern>,
    max_buffer_size: usize,
    max_checkpoint_distance: i64,
    min_price_impact: u64,
}

impl SandwichAnalyzer {
    /// The buffered swaps, oldest first.
    pub closed spec fn buffer(&self) -> Seq<PatternView> {
        views(self.transaction_buffer@)
    }

    /// How many swaps the buffer holds at most.
    pub closed spec fn capacity(&self) -> nat {
        self.max_buffer_size as nat
    }

    /// How many checkpoints may separate a front-run from its back-run.
    pub closed spec fn max_distance(&self) -> i64 {
        self.max_checkpoint_distance
    }

    /// The least price impact, in basis points, of a swap that is tracked.
    pub closed spec fn min_impact(&self) -> u64 {
        self.min_price_impact
    }

    /// The buffer stays within its capacity, which is positive, and the
    /// checkpoint distance is not negative.
    pub closed spec fn wf(&self) -> bool {
        &&& self.transaction_buffer@.len() <= self.max_buffer_size
        &&& self.max_buffer_size >= 1
        &&& 0 <= self.max_checkpoint_distance
    }

    /// The patterns a transaction contributes: its decoded swaps whose price
    /// impact reaches the minimum.
    pub open spec fn observed(&self, events: Seq<ContractEvent>, ctx: DetectionContext) -> Seq<PatternView> {
        patterns_of(swaps_in(events), ctx, self.min_impact())
    }

    /// One transaction's effect: `next` is the analyzer afterwards and `r`
    /// the events it reports, one per sandwich completed by the transaction's
    /// tracked swaps against the buffer as it stood before them.
    pub open spec fn step(&self, events: Seq<ContractEvent>, ctx: DetectionContext, next: Self, r: Seq<RiskEvent>) -> bool {
        let pats = self.observed(events, ctx);
        let found = sandwiches(self.buffer(), pats, self.max_distance());
        &&& next.wf()
        &&& next.capacity() == self.capacity()
        &&& next.max_distance() == self.max_distance()
        &&& next.min_impact() == self.min_impact()
        &&& next.buffer() == recent(buffer_push_all(self.buffer(), pats, self.capacity()), ctx.checkpoint, self.max_distance())
        &&& r.len() == found.len()
        &&& forall|k: int| 0 <= k < r.len() ==> {
            let (f, v, b) = #[trigger] found[k];
            reports_sandwich(r[k], f, v, b)
        }
    }

    pub fn new() -> (r: Self)
        ensures
            r.wf(),
            r.buffer().len() == 0,
            r.capacity() == 1000,
            r.max_distance() == 100,
            r.min_impact() == 100,
    {
        SandwichAnalyzer {
            transaction_buffer: VecDeque::with_capacity(1000),
            max_buffer_size: 1000,
            max_checkpoint_distance: 100,
            min_price_impact: 100,
        }
    }

    /// The number of buffered swaps.
    pub fn get_buffer_size(&self) -> (r: usize)
        ensures
            r == self.buffer().len(),
    {
        proof {
            lemma_views(self.transaction_buffer@);
        }
        self.transaction_buffer.len()
    }

    /// Searches the buffer for a front-run and a victim completing a sandwich
    /// with `back_run`.
    pub fn find_sandwich_pattern(&self, back_run: &SwapPattern) -> (r: Option<SandwichMatch>)
        requires
            self.wf(),
        ensures
            match first_sandwich(self.buffer(), back_run@, self.max_distance(), 0) {
                Some((i, j)) => r matches Some(m) && m.front_run@ == self.buffer()[i] && m.victim@
                    == self.buffer()[j] && m.back_run@ == back_run@ && m.attacker_profit == profit_of(
                    m.front_run@,
                    m.back_run@,
                ) && m.victim_loss_bps == loss_bps_of(m.victim@, m.front_run@),
                None => r is None,
            },
    {
        let ghost buf = self.buffer();
        proof {
            lemma_views(self.transaction_buffer@);
        }
        let n = self.transaction_buffer.len();
        let mut i: usize = 0;
        while i < n
            invariant
                buf == self.buffer(),
                buf.len() == n,
                n == self.transaction_buffer@.len(),
                i <= n,
                forall|k: int| 0 <= k < n ==> #[trigger] buf[k] == self.transaction_buffer@[k]@,
                first_sandwich(buf, back_run@, self.max_checkpoint_distance, 0) == first_sandwich(
                    buf,
                    back_run@,
                    self.max_checkpoint_distance,
                    i as int,
                ),
            decreases n - i,
        {
            let f = &self.transaction_buffer[i];
            let fits = f.pool_id == back_run.pool_id && f.checkpoint <= back_run.checkpoint && f.sender
                == back_run.sender && f.token_in_direction != back_run.token_in_direction
                && (back_run.checkpoint as i128) - (f.checkpoint as i128) <= self.max_checkpoint_distance as i128;
            if fits {
                let mut j: usize = 0;
                while j < n
                    invariant
                        buf.len() == n,
                        n == self.transaction_buffer@.len(),
                        i < n,
                        j <= n,
                        f@ == buf[i as int],
                        front_run_fits(f@, back_run@, self.max_checkpoint_distance),
                        buf == self.buffer(),
                        first_sandwich(buf, back_run@, self.max_checkpoint_distance, 0) == first_sandwich(
                            buf,
                            back_run@,
                            self.max_checkpoint_distance,
                            i as int,
                        ),
                        forall|k: int| 0 <= k < n ==> #[trigger] buf[k] == self.transaction_buffer@[k]@,
                        first_victim(buf, f@, back_run@, 0) == first_victim(buf, f@, back_run@, j as int),
                    decreases n - j,
                {
                    let v = &self.transaction_buffer[j];
                    let between = v.pool_id == back_run.pool_id && v.checkpoint >= f.checkpoint
                        && v.checkpoint <= back_run.checkpoint && (v.checkpoint > f.checkpoint
                        || v.timestamp_ms >= f.timestamp_ms) && (v.checkpoint < back_run.checkpoint
                        || v.timestamp_ms <= back_run.timestamp_ms) && v.sender != back_run.sender
                        && v.token_in_direction == f.token_in_direction;
                    if between {
                        let attacker_profit = if back_run.amount_out > f.amount_in {
                            back_run.amount_out - f.amount_in
                        } else {
                            0
                        };
                        let expected = self.estimate_expected_output(v, f);
                        let victim_loss_bps: u64 = if expected > v.amount_out {
                            (((expected - v.amount_out) as u128 * 10000) / expected as u128) as u64
                        } else {
                            0
                        };
                        proof {
                            assert(victim_fits(buf[j as int], f@, back_run@));
                            assert(first_victim(buf, f@, back_run@, j as int) == Some(j as int));
                            assert(front_run_fits(buf[i as int], back_run@, self.max_checkpoint_distance));
                            assert(first_sandwich(buf, back_run@, self.max_checkpoint_distance, i as int)
                                == Some((i as int, j as int)));
                            assert(victim_loss_bps == loss_bps_of(v@, f@));
                        }
                        return Some(
                            SandwichMatch {
                                front_run: f.copied(),
                                victim: v.copied(),
                                back_run: back_run.copied(),
                                attacker_profit,
                                victim_loss_bps,
                            },
                        );
                    }
                    j = j + 1;
                }
            }
            proof {
                if !fits {
                    assert(!front_run_fits(buf[i as int], back_run@, self.max_checkpoint_distance));
                }
            }
            i = i + 1;
        }
        None
    }

    /// The output the victim would have had without the front-run: its actual
    /// output scaled up by the front-run's price impact.
    pub fn estimate_expected_output(&self, victim: &SwapPattern, front_run: &SwapPattern) -> (r: u64)
        ensures
            r == expected_output_of(victim@, front_run@),
    {
        let divisor: u128 = if front_run.price_impact < 10000 {
            (10000 - front_run.price_impact) as u128
        } else {
            1
        };
        let e: u128 = victim.amount_out as u128 * 10000 / divisor;
        if e > u64::MAX as u128 {
            u64::MAX
        } else {
            e as u64
        }
    }

    /// Appends a swap, dropping the oldest one when the buffer is full.
    pub fn add_to_buffer(&mut self, pattern: SwapPattern)
        requires
            old(self).wf(),
        ensures
            final(self).wf(),
            final(self).buffer() == buffer_push(old(self).buffer(), pattern@, old(self).capacity()),
            final(self).capacity() == old(self).capacity(),
            final(self).max_distance() == old(self).max_distance(),
            final(self).min_impact() == old(self).min_impact(),
    {
        let ghost before = self.transaction_buffer@;
        proof {
            lemma_views(before);
        }
        if self.transaction_buffer.len() >= self.max_buffer_size {
            self.transaction_buffer.pop_front();
            proof {
                lemma_views(self.transaction_buffer@);
                assert(views(self.transaction_buffer@) =~= views(before).drop_first());
            }
        }
        let ghost mid = self.transaction_buffer@;
        self.transaction_buffer.push_back(pattern);
        proof {
            assert(self.transaction_buffer@.drop_last() =~= mid);
        }
    }

    /// Examines one transaction: each of its tracked swaps is taken as a
    /// back-run and searched against the buffer as it stood before the
    /// transaction; then the swaps are appended and old entries dropped.
    pub fn analyze(&mut self, events: &Vec<ContractEvent>, ctx: &DetectionContext) -> (r: Vec<RiskEvent>)
        requires
            old(self).wf(),
        ensures
            old(self).step(events@, *ctx, *final(self), r@),
            final(self).buffer().len() <= final(self).capacity(),
            forall|i: int| 0 <= i < final(self).buffer().len() ==>
                ctx.checkpoint - #[trigger] final(self).buffer()[i].checkpoint <= 2 * final(self).max_distance(),
    {
        let ghost buf0 = self.buffer();
        let current = self.extract_swap_patterns(events, ctx);
        let ghost pats = views(current@);
        proof {
            lemma_views(current@);
        }
        let mut detected: Vec<RiskEvent> = Vec::new();
        let mut k: usize = 0;
        while k < current.len()
            invariant
                self.wf(),
                buf0 == self.buffer(),
                pats == views(current@),
                pats.len() == current@.len(),
                forall|q: int| 0 <= q < current@.len() ==> #[trigger] pats[q] == current@[q]@,
                k <= current@.len(),
                detected@.len() == sandwiches(buf0, pats.take(k as int), self.max_distance()).len(),
                forall|q: int| 0 <= q < detected@.len() ==> {
                    let (f, v, b) = #[trigger] sandwiches(buf0, pats.take(k as int), self.max_distance())[q];
                    reports_sandwich(detected@[q], f, v, b)
                },
            decreases current@.len() - k,
        {
            proof {
                assert(pats.take(k + 1).drop_last() =~= pats.take(k as int));
                assert(pats.take(k + 1).last() == current@[k as int]@);
            }
            if let Some(m) = self.find_sandwich_pattern(&current[k]) {
                let e = self.create_sandwich_event(&m);
                detected.push(e);
            }
            k = k + 1;
        }
        proof {
            assert(pats.take(current@.len() as int) =~= pats);
        }
        let mut k: usize = 0;
        while k < current.len()
            invariant
                self.wf(),
                pats == views(current@),
                pats.len() == current@.len(),
                forall|q: int| 0 <= q < current@.len() ==> #[trigger] pats[q] == current@[q]@,
                k <= current@.len(),
                self.capacity() == old(self).capacity(),
                self.max_distance() == old(self).max_distance(),
                self.min_impact() == old(self).min_impact(),
                self.buffer() == buffer_push_all(buf0, pats.take(k as int), self.capacity()),
            decreases current@.len() - k,
        {
            proof {
                assert(pats.take(k + 1).drop_last() =~= pats.take(k as int));
            }
            self.add_to_buffer(current[k].copied());
            k = k + 1;
        }
        proof {
            assert(pats.take(current@.len() as int) =~= pats);
        }
        self.cleanup_buffer(ctx.checkpoint);
        proof {
            lemma_views(self.transaction_buffer@);
        }
        detected
    }

    /// The tracked swaps of a transaction, tagged with its context.
    fn extract_swap_patterns(&self, events: &Vec<ContractEvent>, ctx: &DetectionContext) -> (r: Vec<SwapPattern>)
        ensures
            views(r@) == self.observed(events@, *ctx),
    {
        let mut pats: Vec<SwapPattern> = Vec::new();
        let mut i: usize = 0;
        while i < events.len()
            invariant
                i <= events@.len(),
                views(pats@) == patterns_of(swaps_in(events@.take(i as int)), *ctx, self.min_price_impact),
            decreases events@.len() - i,
        {
            proof {
                assert(events@.take(i + 1).drop_last() =~= events@.take(i as int));
                assert(events@.take(i + 1).last() == events@[i as int]);
            }
            if let Some(s) = SwapExecuted::from_event(&events[i]) {
                let ghost before = swaps_in(events@.take(i as int));
                proof {
                    assert(before.push(s).drop_last() =~= before);
                }
                if s.price_impact >= self.min_price_impact {
                    let p = SwapPattern {
                        tx_digest: ctx.tx_digest.clone(),
                        sender: id_text(s.sender),
                        pool_id: id_text(s.pool_id),
                        checkpoint: ctx.checkpoint,
                        timestamp_ms: ctx.timestamp_ms,
                        token_in_direction: s.token_in,
                        amount_in: s.amount_in,
                        amount_out: s.amount_out,
                        price_impact: s.price_impact,
                    };
                    let ghost p0 = pats@;
                    pats.push(p);
                    proof {
                        assert(pats@.drop_last() =~= p0);
                    }
                }
            }
            i = i + 1;
        }
        proof {
            assert(events@.take(events@.len() as int) =~= events@);
        }
        pats
    }

    /// The risk event of a detected sandwich, attributed to the back-run.
    pub fn create_sandwich_event(&self, sandwich: &SandwichMatch) -> (r: RiskEvent)
        ensures
            reports_match(r, sandwich.attacker_profit, sandwich.victim_loss_bps, sandwich.front_run@, sandwich.back_run@),
    {
        let f = &sandwich.front_run;
        let b = &sandwich.back_run;
        let mut risk_score: u32 = 0;
        if sandwich.attacker_profit > 1_000_000_000 {
            risk_score = risk_score + 40;
        } else if sandwich.attacker_profit > 100_000_000 {
            risk_score = risk_score + 30;
        } else if sandwich.attacker_profit > 0 {
            risk_score = risk_score + 20;
        }
        if sandwich.victim_loss_bps > 1000 {
            risk_score = risk_score + 30;
        } else if sandwich.victim_loss_bps > 500 {
            risk_score = risk_score + 20;
        } else if sandwich.victim_loss_bps > 100 {
            risk_score = risk_score + 10;
        }
        if f.checkpoint == b.checkpoint {
            risk_score = risk_score + 10;
        }
        let time_diff: i128 = b.timestamp_ms as i128 - f.timestamp_ms as i128;
        if time_diff < 5000 {
            risk_score = risk_score + 10;
        }
        let risk_level = if risk_score < 30 {
            RiskLevel::Low
        } else if risk_score < 50 {
            RiskLevel::Medium
        } else if risk_score < 70 {
            RiskLevel::High
        } else {
            RiskLevel::Critical
        };
        let span: i64 = if time_diff > i64::MAX as i128 {
            i64::MAX
        } else if time_diff < i64::MIN as i128 {
            i64::MIN
        } else {
            time_diff as i64
        };
        let mut description = String::from_str("Sandwich attack: attacker profit ");
        push_all(&mut description, &format_currency(sandwich.attacker_profit));
        description.append(", victim loss ");
        push_all(&mut description, &format_bps(sandwich.victim_loss_bps));
        description.append(", time span ");
        push_signed(&mut description, span);
        description.append("ms");
        let event = RiskEvent::new(
            RiskType::SandwichAttack,
            risk_level,
            b.tx_digest.clone(),
            b.sender.clone(),
            b.checkpoint,
            b.timestamp_ms,
            description,
        );
        event.with_detail(String::from_str("attacker"), DetailValue::Text(b.sender.clone()))
            .with_detail(String::from_str("victim"), DetailValue::Text(sandwich.victim.sender.clone()))
            .with_detail(String::from_str("pool_id"), DetailValue::Text(b.pool_id.clone()))
            .with_detail(String::from_str("front_run_tx"), DetailValue::Text(f.tx_digest.clone()))
            .with_detail(String::from_str("victim_tx"), DetailValue::Text(sandwich.victim.tx_digest.clone()))
            .with_detail(String::from_str("back_run_tx"), DetailValue::Text(b.tx_digest.clone()))
            .with_detail(String::from_str("attacker_profit"), DetailValue::Text(format_currency(sandwich.attacker_profit)))
            .with_detail(String::from_str("victim_loss"), DetailValue::Text(format_bps(sandwich.victim_loss_bps)))
            .with_detail(String::from_str("time_span_ms"), DetailValue::Signed(span))
            .with_detail(String::from_str("risk_score"), DetailValue::Unsigned(risk_score as u64))
    }

    /// Drops the swaps more than twice the checkpoint distance older than
    /// `current_checkpoint`.
    pub fn cleanup_buffer(&mut self, current_checkpoint: i64)
        requires
            old(self).wf(),
        ensures
            final(self).wf(),
            final(self).buffer() == recent(old(self).buffer(), current_checkpoint, old(self).max_distance()),
            forall|i: int| 0 <= i < final(self).buffer().len() ==>
                current_checkpoint - #[trigger] final(self).buffer()[i].checkpoint <= 2 * final(self).max_distance(),
            final(self).capacity() == old(self).capacity(),
            final(self).max_distance() == old(self).max_distance(),
            final(self).min_impact() == old(self).min_impact(),
    {
        let ghost before = self.transaction_buffer@;
        proof {
            lemma_views(before);
        }
        let mut kept: VecDeque<SwapPattern> = VecDeque::new();
        let n = self.transaction_buffer.len();
        let limit: i128 = 2 * (self.max_checkpoint_distance as i128);
        let mut i: usize = 0;
        while i < n
            invariant
                n == before.len(),
                before == self.transaction_buffer@,
                i <= n,
                limit == 2 * self.max_checkpoint_distance,
                views(kept@) == recent(views(before.take(i as int)), current_checkpoint, self.max_checkpoint_distance),
                kept@.len() <= i,
            decreases n - i,
        {
            let p = &self.transaction_buffer[i];
            proof {
                lemma_views(before.take(i + 1));
                lemma_views(before.take(i as int));
                assert(before.take(i + 1).drop_last() =~= before.take(i as int));
                assert(views(before.take(i + 1)).drop_last() =~= views(before.take(i as int)));
            }
            if (current_checkpoint as i128) - (p.checkpoint as i128) <= limit {
                let ghost k0 = kept@;
                kept.push_back(p.copied());
                proof {
                    assert(kept@.drop_last() =~= k0);
                }
            }
            i = i + 1;
        }
        proof {
            assert(before.take(n as int) =~= before);
            lemma_recent(views(before), current_checkpoint, self.max_checkpoint_distance);
        }
        self.transaction_buffer = kept;
    }
}

} // verus!
