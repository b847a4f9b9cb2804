//! Detectors and the detection pipeline: every detector examines each
//! transaction in a fixed order and their events are concatenated.

use vstd::prelude::*;
use crate::events::ContractEvent;
use crate::flash_loan::{flash_loan_level, FlashLoanAnalyzer};
use crate::oracle_manipulation::{oracle_level, OracleManipulationAnalyzer};
use crate::price::{price_level, PriceAnalyzer};
use crate::risk::{DetailView, DetectionContext, RiskEvent, RiskLevel, RiskType};
use crate::sandwich::{sandwich_level, sandwich_score, sandwiches, SandwichAnalyzer};

verus! {

/// Flash-loan detector.
pub struct FlashLoanDetector {
    pub analyzer: FlashLoanAnalyzer,
}

impl FlashLoanDetector {
    pub fn new() -> (r: Self)
        ensures
            r.analyzer.price_impact_threshold == 500,
            r.analyzer.high_price_impact_threshold == 1000,
            r.analyzer.min_swap_count == 2,
    {
        FlashLoanDetector { analyzer: FlashLoanAnalyzer::new() }
    }

    pub fn name(&self) -> &'static str {
        "FlashLoanDetector"
    }

    pub fn detect(&self, events: &Vec<ContractEvent>, context: &DetectionContext) -> (r: Vec<RiskEvent>)
        ensures
            r@.len() <= 1,
            r@.len() == 0 ==> self.analyzer.outcome(events@, *context, None),
            r@.len() == 1 ==> self.analyzer.outcome(events@, *context, Some(r@[0])),
    {
        match self.analyzer.analyze(events, context) {
            Some(e) => vec![e],
            None => Vec::new(),
        }
    }
}

/// Price manipulation detector.
pub struct PriceManipulationDetector {
    pub analyzer: PriceAnalyzer,
}

impl PriceManipulationDetector {
    pub fn new() -> (r: Self)
        ensures
            r.analyzer.high_price_impact_threshold == 1000,
            r.analyzer.critical_price_impact_threshold == 2000,
            r.analyzer.twap_deviation_threshold == 500,
            r.analyzer.high_twap_deviation_threshold == 1000,
            r.analyzer.large_trade_ratio_bps == 1500,
    {
        PriceManipulationDetector { analyzer: PriceAnalyzer::new() }
    }

    pub fn name(&self) -> &'static str {
        "PriceManipulationDetector"
    }

    pub fn detect(&self, events: &Vec<ContractEvent>, context: &DetectionContext) -> (r: Vec<RiskEvent>)
        ensures
            r@.len() <= 1,
            r@.len() == 0 ==> self.analyzer.outcome(events@, *context, None),
            r@.len() == 1 ==> self.analyzer.outcome(events@, *context, Some(r@[0])),
    {
        match self.analyzer.analyze(events, context) {
            Some(e) => vec![e],
            None => Vec::new(),
        }
    }
}

/// Sandwich detector; it owns the buffer of recent swaps.
pub struct SandwichDetector {
    pub analyzer: SandwichAnalyzer,
}

impl SandwichDetector {
    pub fn new() -> (r: Self)
        ensures
            r.analyzer.wf(),
            r.analyzer.buffer().len() == 0,
            r.analyzer.capacity() == 1000,
            r.analyzer.max_distance() == 100,
            r.analyzer.min_impact() == 100,
    {
        SandwichDetector { analyzer: SandwichAnalyzer::new() }
    }

    pub fn name(&self) -> &'static str {
        "SandwichDetector"
    }

    pub fn detect(&mut self, events: &Vec<ContractEvent>, context: &DetectionContext) -> (r: Vec<RiskEvent>)
        requires
            old(self).analyzer.wf(),
        ensures
            old(self).analyzer.step(events@, *context, final(self).analyzer, r@),
    {
        self.analyzer.analyze(events, context)
    }
}

/// Oracle manipulation detector.
pub struct OracleManipulationDetector {
    pub analyzer: OracleManipulationAnalyzer,
}

impl OracleManipulationDetector {
    pub fn new() -> (r: Self)
        ensures
            r.analyzer.min_price_deviation == 1000,
            r.analyzer.min_borrow_amount == 100_000_000,
    {
        OracleManipulationDetector { analyzer: OracleManipulationAnalyzer::new() }
    }

    pub fn name(&self) -> &'static str {
        "OracleManipulation"
    }

    pub fn detect(&self, events: &Vec<ContractEvent>, context: &DetectionContext) -> (r: Vec<RiskEvent>)
        ensures
            r@.len() <= 1,
            r@.len() == 0 ==> self.analyzer.outcome(events@, *context, None),
            r@.len() == 1 ==> self.analyzer.outcome(events@, *context, Some(r@[0])),
    {
        match self.analyzer.analyze(events, context) {
            Some(e) => vec![e],
            None => Vec::new(),
        }
    }
}

/// One of the detectors a pipeline runs.
pub enum Detector {
    FlashLoan(FlashLoanDetector),
    PriceManipulation(PriceManipulationDetector),
    Sandwich(SandwichDetector),
    OracleManipulation(OracleManipulationDetector),
}

/// The level that the tables give a score for a kind of risk.
pub open spec fn level_for(t: RiskType, score: u32) -> RiskLevel {
    match t {
        RiskType::FlashLoanAttack => flash_loan_level(score),
        RiskType::PriceManipulation => price_level(score),
        RiskType::SandwichAttack => sandwich_level(score),
        RiskType::OracleManipulation => oracle_level(score),
    }
}

/// The level of `e` is the one its kind's table gives its `risk_score` detail.
pub open spec fn level_matches_score(e: RiskEvent) -> bool {
    exists|s: u32| e.detail_map().contains_key("risk_score"@) && e.detail_map()["risk_score"@] == DetailView::Unsigned(
        s as u64,
    ) && e.risk_level == level_for(e.risk_type, s)
}

/// Two events agree on everything a detector's contract fixes.
pub open spec fn same_report(a: RiskEvent, b: RiskEvent) -> bool {
    &&& a.risk_type == b.risk_type
    &&& a.risk_level == b.risk_level
    &&& a.tx_digest@ == b.tx_digest@
    &&& a.sender@ == b.sender@
    &&& a.checkpoint == b.checkpoint
    &&& a.timestamp_ms == b.timestamp_ms
    &&& a.detail_map()["risk_score"@] == b.detail_map()["risk_score"@]
}

impl Detector {
    /// The detector is ready to run.
    pub open spec fn wf(&self) -> bool {
        match self {
            Detector::Sandwich(d) => d.analyzer.wf(),
            _ => true,
        }
    }

    /// Whether the detector holds state across transactions.
    pub open spec fn is_stateful(&self) -> bool {
        self is Sandwich
    }

    /// One transaction's effect: `next` is the detector afterwards and `r` the
    /// events it reports.
    pub open spec fn emits(&self, events: Seq<ContractEvent>, ctx: DetectionContext, next: Detector, r: Seq<RiskEvent>) -> bool {
        match self {
            Detector::FlashLoan(d) => next == *self && r.len() <= 1 && (r.len() == 0 ==> d.analyzer.outcome(events, ctx, None))
                && (r.len() == 1 ==> d.analyzer.outcome(events, ctx, Some(r[0]))),
            Detector::PriceManipulation(d) => next == *self && r.len() <= 1 && (r.len() == 0 ==> d.analyzer.outcome(events, ctx, None))
                && (r.len() == 1 ==> d.analyzer.outcome(events, ctx, Some(r[0]))),
            Detector::OracleManipulation(d) => next == *self && r.len() <= 1 && (r.len() == 0 ==> d.analyzer.outcome(events, ctx, None))
                && (r.len() == 1 ==> d.analyzer.outcome(events, ctx, Some(r[0]))),
            Detector::Sandwich(d) => next matches Detector::Sandwich(n) && d.analyzer.step(events, ctx, n.analyzer, r),
        }
    }

    pub fn name(&self) -> &'static str {
        match self {
            Detector::FlashLoan(d) => d.name(),
            Detector::PriceManipulation(d) => d.name(),
            Detector::Sandwich(d) => d.name(),
            Detector::OracleManipulation(d) => d.name(),
        }
    }

    pub fn detect(&mut self, events: &Vec<ContractEvent>, context: &DetectionContext) -> (r: Vec<RiskEvent>)
        requires
            old(self).wf(),
        ensures
            old(self).emits(events@, *context, *final(self), r@),
            final(self).wf(),
    {
        match self {
            Detector::FlashLoan(d) => d.detect(events, context),
            Detector::PriceManipulation(d) => d.detect(events, context),
            Detector::Sandwich(d) => d.detect(events, context),
            Detector::OracleManipulation(d) => d.detect(events, context),
        }
    }
}

/// The events of several detectors, one after another.
pub open spec fn concat_all(outs: Seq<Seq<RiskEvent>>) -> Seq<RiskEvent>
    decreases outs.len(),
{
    if outs.len() == 0 {
        Seq::empty()
    } else {
        concat_all(outs.drop_last()) + outs.last()
    }
}

/// An ordered list of detectors.
pub struct DetectionPipeline {
    pub detectors: Vec<Detector>,
}

impl DetectionPipeline {
    pub open spec fn wf(&self) -> bool {
        forall|i: int| 0 <= i < self.detectors@.len() ==> (#[trigger] self.detectors@[i]).wf()
    }

    pub fn new() -> (r: Self)
        ensures
            r.detectors@.len() == 0,
    {
        DetectionPipeline { detectors: Vec::new() }
    }

    /// The pipeline with `detector` run after the others.
    pub fn add_detector(self, detector: Detector) -> (r: Self)
        ensures
            r.detectors@ == self.detectors@.push(detector),
    {
        let mut r = self;
        r.detectors.push(detector);
        r
    }

    /// Runs every detector on the transaction, in order, and concatenates
    /// their events.
    pub fn run(&mut self, events: &Vec<ContractEvent>, context: &DetectionContext) -> (r: Vec<RiskEvent>)
        requires
            old(self).wf(),
        ensures
            final(self).wf(),
            final(self).detectors@.len() == old(self).detectors@.len(),
            exists|outs: Seq<Seq<RiskEvent>>|
                {
                    &&& outs.len() == old(self).detectors@.len()
                    &&& r@ == concat_all(outs)
                    &&& forall|i: int| 0 <= i < outs.len() ==> #[trigger] old(self).detectors@[i].emits(
                        events@,
                        *context,
                        final(self).detectors@[i],
                        outs[i],
                    )
                },
    {
        let ghost before = self.detectors@;
        let mut pending: Vec<Detector> = Vec::new();
        std::mem::swap(&mut self.detectors, &mut pending);
        let n = pending.len();
        let mut done: Vec<Detector> = Vec::new();
        let mut all: Vec<RiskEvent> = Vec::new();
        let ghost mut outs: Seq<Seq<RiskEvent>> = Seq::empty();
        let mut i: usize = 0;
        while i < n
            invariant
                n == before.len(),
                i <= n,
                pending@ == before.subrange(i as int, n as int),
                done@.len() == i,
                outs.len() == i,
                all@ == concat_all(outs),
                forall|k: int| 0 <= k < n ==> (#[trigger] before[k]).wf(),
                forall|k: int| 0 <= k < i ==> (#[trigger] done@[k]).wf(),
                forall|k: int| 0 <= k < i ==> #[trigger] before[k].emits(events@, *context, done@[k], outs[k]),
            decreases n - i,
        {
            let mut d = pending.remove(0);
            proof {
                assert(d == before[i as int]);
                assert(pending@ =~= before.subrange(i + 1, n as int));
            }
            let out = d.detect(events, context);
            let ghost outs0 = outs;
            proof {
                outs = outs.push(out@);
                assert(outs.drop_last() =~= outs0);
            }
            let mut out_mut = out;
            all.append(&mut out_mut);
            done.push(d);
            i = i + 1;
        }
        self.detectors = done;
        all
    }
}

/// Whether some event of the transaction was emitted by the package `target`.
pub fn involves_target_package(events: &Vec<ContractEvent>, target: &String) -> (r: bool)
    ensures
        r == exists|k: int| 0 <= k < events@.len() && (#[trigger] events@[k]).package_id@ == target@,
{
    let mut i: usize = 0;
    while i < events.len()
        invariant
            i <= events@.len(),
            forall|k: int| 0 <= k < i ==> (#[trigger] events@[k]).package_id@ != target@,
        decreases events@.len() - i,
    {
        if events[i].package_id == *target {
            return true;
        }
        i = i + 1;
    }
    false
}

/// Every event a detector reports carries the level that its kind's table
/// gives its risk score.
pub proof fn lemma_level_from_score(d: Detector, events: Seq<ContractEvent>, ctx: DetectionContext, next: Detector, r: Seq<RiskEvent>)
    requires
        d.emits(events, ctx, next, r),
    ensures
        forall|i: int| 0 <= i < r.len() ==> level_matches_score(#[trigger] r[i]),
{
    match d {
        Detector::Sandwich(s) => {
            let found = sandwiches(s.analyzer.buffer(), s.analyzer.observed(events, ctx), s.analyzer.max_distance());
            assert forall|i: int| 0 <= i < r.len() implies level_matches_score(#[trigger] r[i]) by {
                let (f, v, b) = found[i];
                assert(level_for(r[i].risk_type, sandwich_score(f, v, b)) == r[i].risk_level);
            }
        },
        Detector::FlashLoan(a) => {
            if r.len() == 1 {
                let s = a.analyzer.score(events)->0;
                assert(level_for(r[0].risk_type, s) == r[0].risk_level);
            }
        },
        Detector::PriceManipulation(a) => {
            if r.len() == 1 {
                let s = a.analyzer.score(events)->0;
                assert(level_for(r[0].risk_type, s) == r[0].risk_level);
            }
        },
        Detector::OracleManipulation(a) => {
            if r.len() == 1 {
                let s = a.analyzer.score(events)->0;
                assert(level_for(r[0].risk_type, s) == r[0].risk_level);
            }
        },
    }
}

/// A transaction without events makes no detector report anything.
pub proof fn lemma_no_events_no_report(d: Detector, ctx: DetectionContext, next: Detector, r: Seq<RiskEvent>)
    requires
        d.emits(Seq::empty(), ctx, next, r),
    ensures
        r.len() == 0,
{
    let e = Seq::<ContractEvent>::empty();
    match d {
        Detector::Sandwich(s) => {
            assert(s.analyzer.observed(e, ctx) =~= Seq::empty());
        },
        _ => {},
    }
}

/// A detector that holds no state reports the same on the same transaction
/// every time, and is unchanged by it.
pub proof fn lemma_stateless_repeatable(
    d: Detector,
    events: Seq<ContractEvent>,
    ctx: DetectionContext,
    n1: Detector,
    r1: Seq<RiskEvent>,
    n2: Detector,
    r2: Seq<RiskEvent>,
)
    requires
        !d.is_stateful(),
        d.emits(events, ctx, n1, r1),
        d.emits(events, ctx, n2, r2),
    ensures
        n1 == d,
        n2 == d,
        r1.len() == r2.len(),
        forall|i: int| 0 <= i < r1.len() ==> same_report(#[trigger] r1[i], r2[i]),
{
}

} // verus!
