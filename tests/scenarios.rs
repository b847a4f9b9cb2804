use sui_indexer::events::ContractEvent;
use sui_indexer::flash_loan::FlashLoanAnalyzer;
use sui_indexer::oracle_manipulation::OracleManipulationAnalyzer;
use sui_indexer::pipeline::{
    involves_target_package, DetectionPipeline, Detector, FlashLoanDetector, OracleManipulationDetector,
    PriceManipulationDetector, SandwichDetector,
};
use sui_indexer::price::PriceAnalyzer;
use sui_indexer::risk::{DetailValue, DetectionContext, RiskEvent, RiskLevel, RiskType};
use sui_indexer::sandwich::SandwichAnalyzer;

fn id(n: u8) -> [u8; 32] {
    let mut b = [0u8; 32];
    b[31] = n;
    b
}

fn event(name: &str, contents: Vec<u8>, type_params: &[&str]) -> ContractEvent {
    ContractEvent {
        name: name.to_string(),
        package_id: "0xabc".to_string(),
        contents,
        type_params: type_params.iter().map(|s| s.to_string()).collect(),
    }
}

fn loan(name: &str, pool: u8, amount: u64) -> ContractEvent {
    event(name, bcs::to_bytes(&(id(pool), id(9), amount, 10u64)).unwrap(), &[])
}

struct Swap {
    pool: u8,
    sender: u8,
    token_in: bool,
    amount_in: u64,
    amount_out: u64,
    reserve_a: u64,
    reserve_b: u64,
    impact: u64,
}

fn swap(s: &Swap, token: &str) -> ContractEvent {
    let payload = (id(s.pool), id(s.sender), s.token_in, s.amount_in, s.amount_out, 0u64, s.reserve_a, s.reserve_b, s.impact);
    event("SwapExecuted", bcs::to_bytes(&payload).unwrap(), &[token])
}

fn simple_swap(pool: u8, impact: u64) -> Swap {
    Swap { pool, sender: 7, token_in: true, amount_in: 1000, amount_out: 990, reserve_a: 1_000_000, reserve_b: 1_000_000, impact }
}

fn borrow(amount: u64, collateral: u64, oracle_price: u64, health: u64) -> ContractEvent {
    let payload = (id(1), id(2), id(3), amount, collateral, oracle_price, health, 0u64, 0u64);
    event("BorrowEvent", bcs::to_bytes(&payload).unwrap(), &[])
}

fn ctx(digest: &str, checkpoint: i64, ts: i64) -> DetectionContext {
    DetectionContext::new(digest.to_string(), "0xsender".to_string(), checkpoint, ts)
}

fn score(e: &RiskEvent) -> u64 {
    let mut found = None;
    for (k, v) in &e.details {
        if k == "risk_score" {
            if let DetailValue::Unsigned(n) = v {
                found = Some(*n);
            }
        }
    }
    found.expect("risk_score detail")
}

fn text_detail(e: &RiskEvent, key: &str) -> String {
    for (k, v) in &e.details {
        if k == key {
            if let DetailValue::Text(t) = v {
                return t.clone();
            }
        }
    }
    panic!("no detail {}", key)
}

#[test]
fn flash_loan_arbitrage_is_critical() {
    let events = vec![
        loan("FlashLoanTaken", 1, 2_000_000_000),
        swap(&simple_swap(11, 600), "USDC"),
        swap(&simple_swap(12, 600), "USDT"),
        swap(&simple_swap(11, 600), "USDC"),
        loan("FlashLoanRepaid", 1, 2_000_000_000),
    ];
    let e = FlashLoanAnalyzer::new().analyze(&events, &ctx("digest01", 5, 6)).expect("event");
    assert_eq!(e.risk_type, RiskType::FlashLoanAttack);
    assert_eq!(e.risk_level, RiskLevel::Critical);
    assert_eq!(score(&e), 100);
    assert_eq!(e.tx_digest, "digest01");
    assert_eq!(e.checkpoint, 5);
    assert_eq!(text_detail(&e, "total_borrowed"), "2,000,000,000");
    assert_eq!(text_detail(&e, "total_price_impact"), "18.00%");
    assert_eq!(
        e.description,
        "Flash loan arbitrage detected: 3 swaps across 2 pools, 18.00% total price impact, circular trading pattern"
    );
}

#[test]
fn flash_loan_score_thirty_is_low() {
    let events = vec![
        loan("FlashLoanTaken", 1, 2_000_000_000),
        swap(&simple_swap(11, 100), "USDC"),
        swap(&simple_swap(12, 100), "USDT"),
        loan("FlashLoanRepaid", 1, 2_000_000_000),
    ];
    let e = FlashLoanAnalyzer::new().analyze(&events, &ctx("d", 1, 1)).expect("event");
    assert_eq!(score(&e), 30);
    assert_eq!(e.risk_level, RiskLevel::Low);
}

#[test]
fn flash_loan_score_eighty_five_is_critical() {
    let mut events = vec![loan("FlashLoanTaken", 1, 2_000_000_000)];
    for _ in 0..5 {
        events.push(swap(&simple_swap(11, 500), "USDC"));
    }
    events.push(loan("FlashLoanRepaid", 1, 2_000_000_000));
    let e = FlashLoanAnalyzer::new().analyze(&events, &ctx("d", 1, 1)).expect("event");
    assert_eq!(score(&e), 85);
    assert_eq!(e.risk_level, RiskLevel::Critical);
}

#[test]
fn flash_loan_score_below_thirty_is_absent() {
    let events = vec![
        loan("FlashLoanTaken", 1, 2_000_000_000),
        swap(&simple_swap(11, 100), "USDC"),
        swap(&simple_swap(11, 100), "USDT"),
        loan("FlashLoanRepaid", 1, 2_000_000_000),
    ];
    assert!(FlashLoanAnalyzer::new().analyze(&events, &ctx("d", 1, 1)).is_none());
}

#[test]
fn benign_flash_loan_is_not_reported() {
    let events = vec![loan("FlashLoanTaken", 1, 2_000_000_000), loan("FlashLoanRepaid", 1, 2_000_000_000)];
    let c = ctx("d", 1, 1);
    assert!(FlashLoanAnalyzer::new().analyze(&events, &c).is_none());
    assert!(PriceAnalyzer::new().analyze(&events, &c).is_none());
    assert!(OracleManipulationAnalyzer::new().analyze(&events, &c).is_none());
    assert!(SandwichAnalyzer::new().analyze(&events, &c).is_empty());
}

#[test]
fn swap_only_price_manipulation() {
    // Impact 2100 gives 40; a ratio of exactly 0.30 is not above 0.30 but is
    // above 0.15, which gives 15 more.
    let s = Swap { pool: 1, sender: 7, token_in: true, amount_in: 3000, amount_out: 2000, reserve_a: 10000, reserve_b: 10000, impact: 2100 };
    let e = PriceAnalyzer::new().analyze(&vec![swap(&s, "A")], &ctx("d", 1, 1)).expect("event");
    assert_eq!(e.risk_type, RiskType::PriceManipulation);
    assert_eq!(e.risk_level, RiskLevel::Medium);
    assert_eq!(score(&e), 55);
    assert_eq!(text_detail(&e, "swap_to_depth_ratio"), "30.00%");
    assert_eq!(e.description, "High price impact: 21.00% in single swap (ratio: 30.00% of pool depth)");
}

#[test]
fn large_trade_against_depth_adds_score() {
    let s = Swap { pool: 1, sender: 7, token_in: true, amount_in: 3001, amount_out: 2000, reserve_a: 10000, reserve_b: 10000, impact: 2100 };
    let e = PriceAnalyzer::new().analyze(&vec![swap(&s, "A")], &ctx("d", 1, 1)).expect("event");
    assert_eq!(score(&e), 65);
    assert_eq!(e.risk_level, RiskLevel::Medium);
    let small = Swap { pool: 1, sender: 7, token_in: true, amount_in: 1500, amount_out: 2000, reserve_a: 10000, reserve_b: 10000, impact: 2100 };
    let e = PriceAnalyzer::new().analyze(&vec![swap(&small, "A")], &ctx("d", 1, 1)).expect("event");
    assert_eq!(score(&e), 40);
    assert_eq!(e.risk_level, RiskLevel::Low);
}

#[test]
fn pump_without_twap_is_low() {
    let events = vec![swap(&simple_swap(3, 500), "A"), swap(&simple_swap(3, 600), "A")];
    let e = PriceAnalyzer::new().analyze(&events, &ctx("d", 1, 1)).expect("event");
    assert_eq!(score(&e), 25);
    assert_eq!(e.risk_level, RiskLevel::Low);
}

#[test]
fn deviation_alert_alone_is_absent() {
    let payload = (id(1), "A".to_string(), "B".to_string(), 100u64, 200u64, 5000u64, 7u64);
    let events = vec![event("PriceDeviationDetected", bcs::to_bytes(&payload).unwrap(), &[])];
    assert!(PriceAnalyzer::new().analyze(&events, &ctx("d", 1, 1)).is_none());
}

#[test]
fn twap_deviation_counts() {
    let twap = (id(1), "0x2::sui::SUI".to_string(), "0x3::usdc::USDC".to_string(), 1000u64, 1u64, 1300u64, 1u64, 2500u64, 9u64);
    let events = vec![
        event("TWAPUpdated", bcs::to_bytes(&twap).unwrap(), &[]),
        swap(&simple_swap(1, 500), "A"),
    ];
    let e = PriceAnalyzer::new().analyze(&events, &ctx("d", 1, 1)).expect("event");
    assert_eq!(score(&e), 40);
    assert_eq!(text_detail(&e, "twap_deviation"), "25.00%");
    assert_eq!(text_detail(&e, "spot_price"), "1,300");
    assert_eq!(e.description, "Price manipulation: 5.00% price impact, 25.00% TWAP deviation (ratio: 0.10% of pool)");
}

#[test]
fn oracle_manipulation_is_critical() {
    let s = Swap {
        pool: 1,
        sender: 7,
        token_in: false,
        amount_in: 40_000_000_000,
        amount_out: 20_000_000,
        reserve_a: 100_000_000,
        reserve_b: 240_000_000_000,
        impact: 2000,
    };
    let events = vec![
        loan("FlashLoanTaken", 1, 2_000_000_000),
        swap(&s, "B"),
        borrow(5_000_000_000, 10_000_000_000, 2400, 16000),
        loan("FlashLoanRepaid", 1, 2_000_000_000),
    ];
    let e = OracleManipulationAnalyzer::new().analyze(&events, &ctx("d", 1, 1)).expect("event");
    assert_eq!(e.risk_type, RiskType::OracleManipulation);
    assert_eq!(e.risk_level, RiskLevel::Critical);
    assert_eq!(score(&e), 85);
    assert_eq!(text_detail(&e, "normal_price"), "1,666,666,666,666");
    let deviation = (1_666_666_666_666u64 - 2400) as u128 * 10000 / 2400;
    assert_eq!(
        e.description,
        format!(
            "Oracle manipulation: {}.{:02}% price inflation, $5,000 borrow, $0 potential protocol loss",
            deviation / 100,
            deviation % 100
        )
    );
}

#[test]
fn oracle_zero_reserve_is_absent() {
    let s = Swap { pool: 1, sender: 7, token_in: true, amount_in: 1000, amount_out: 10, reserve_a: 1000, reserve_b: 5000, impact: 2000 };
    let events = vec![
        loan("FlashLoanTaken", 1, 2_000_000_000),
        swap(&s, "A"),
        borrow(5_000_000_000, 10_000_000_000, 2400, 16000),
        loan("FlashLoanRepaid", 1, 2_000_000_000),
    ];
    assert!(OracleManipulationAnalyzer::new().analyze(&events, &ctx("d", 1, 1)).is_none());
}

#[test]
fn oracle_needs_repaid_loan_after_taken() {
    let s = Swap {
        pool: 1,
        sender: 7,
        token_in: false,
        amount_in: 40_000_000_000,
        amount_out: 20_000_000,
        reserve_a: 100_000_000,
        reserve_b: 240_000_000_000,
        impact: 2000,
    };
    let events = vec![
        loan("FlashLoanRepaid", 1, 2_000_000_000),
        swap(&s, "B"),
        borrow(5_000_000_000, 10_000_000_000, 2400, 16000),
        loan("FlashLoanTaken", 1, 2_000_000_000),
    ];
    assert!(OracleManipulationAnalyzer::new().analyze(&events, &ctx("d", 1, 1)).is_none());
}

fn sandwich_tx(sender: u8, dir: bool, impact: u64, amount_in: u64, amount_out: u64) -> Vec<ContractEvent> {
    let s = Swap { pool: 4, sender, token_in: dir, amount_in, amount_out, reserve_a: 100_000, reserve_b: 100_000, impact };
    vec![swap(&s, "A")]
}

#[test]
fn sandwich_with_small_victim_is_medium() {
    let mut analyzer = SandwichAnalyzer::new();
    analyzer.analyze(&sandwich_tx(1, true, 500, 1000, 990), &ctx("tx1", 1000, 100));
    analyzer.analyze(&sandwich_tx(2, true, 200, 10, 10), &ctx("tx2", 1000, 200));
    let r3 = analyzer.analyze(&sandwich_tx(1, false, 500, 1000, 1200), &ctx("tx3", 1000, 300));
    assert_eq!(r3.len(), 1);
    // Profit 200 (+20), same checkpoint (+10), fast (+10); the estimate for 10
    // out is 10, so no loss is counted.
    assert_eq!(text_detail(&r3[0], "victim_loss"), "0.00%");
    assert_eq!(score(&r3[0]), 40);
    assert_eq!(r3[0].risk_level, RiskLevel::Medium);
    assert_eq!(
        r3[0].description,
        "Sandwich attack: attacker profit 200, victim loss 0.00%, time span 200ms"
    );
}

#[test]
fn sandwich_across_three_transactions() {
    let mut analyzer = SandwichAnalyzer::new();
    let r1 = analyzer.analyze(&sandwich_tx(1, true, 500, 1000, 990), &ctx("tx1", 1000, 100));
    let r2 = analyzer.analyze(&sandwich_tx(2, true, 200, 1000, 1000), &ctx("tx2", 1000, 200));
    let r3 = analyzer.analyze(&sandwich_tx(1, false, 500, 1000, 1200), &ctx("tx3", 1000, 300));
    assert!(r1.is_empty());
    assert!(r2.is_empty());
    assert_eq!(r3.len(), 1);
    let e = &r3[0];
    assert_eq!(e.risk_type, RiskType::SandwichAttack);
    assert_eq!(e.tx_digest, "tx3");
    assert_eq!(text_detail(e, "attacker_profit"), "200");
    assert_eq!(text_detail(e, "front_run_tx"), "tx1");
    assert_eq!(text_detail(e, "victim_tx"), "tx2");
    // Profit 200 (+20), victim loss 494 bps (+10), same checkpoint (+10), fast (+10).
    assert_eq!(text_detail(e, "victim_loss"), "4.94%");
    assert_eq!(score(e), 50);
    assert_eq!(e.risk_level, RiskLevel::High);
    assert_eq!(analyzer.get_buffer_size(), 3);
    assert_eq!(e.sender, format!("0x{}01", "0".repeat(62)));
}

#[test]
fn sandwich_buffer_pruned_by_checkpoint() {
    let mut analyzer = SandwichAnalyzer::new();
    analyzer.analyze(&sandwich_tx(1, true, 500, 1000, 990), &ctx("tx1", 1000, 100));
    analyzer.analyze(&sandwich_tx(2, true, 50, 1000, 990), &ctx("tx2", 1100, 100));
    assert_eq!(analyzer.get_buffer_size(), 1);
    analyzer.analyze(&sandwich_tx(2, true, 500, 1000, 990), &ctx("tx3", 1201, 100));
    assert_eq!(analyzer.get_buffer_size(), 1);
}

#[test]
fn stateless_analyzers_repeat_themselves() {
    let events = vec![
        loan("FlashLoanTaken", 1, 2_000_000_000),
        swap(&simple_swap(11, 600), "USDC"),
        swap(&simple_swap(12, 600), "USDT"),
        loan("FlashLoanRepaid", 1, 2_000_000_000),
    ];
    let c = ctx("d", 1, 1);
    let a = FlashLoanAnalyzer::new();
    let e1 = a.analyze(&events, &c).expect("event");
    let e2 = a.analyze(&events, &c).expect("event");
    assert_eq!(e1.risk_level, e2.risk_level);
    assert_eq!(e1.description, e2.description);
    assert_eq!(score(&e1), score(&e2));
    let p = PriceAnalyzer::new();
    assert_eq!(p.analyze(&events, &c).map(|e| score(&e)), p.analyze(&events, &c).map(|e| score(&e)));
}

#[test]
fn no_events_no_report() {
    let c = ctx("d", 1, 1);
    let none: Vec<ContractEvent> = Vec::new();
    assert!(FlashLoanAnalyzer::new().analyze(&none, &c).is_none());
    assert!(PriceAnalyzer::new().analyze(&none, &c).is_none());
    assert!(OracleManipulationAnalyzer::new().analyze(&none, &c).is_none());
    assert!(SandwichAnalyzer::new().analyze(&none, &c).is_empty());
}

#[test]
fn pipeline_concatenates_in_order() {
    let mut pipeline = DetectionPipeline::new()
        .add_detector(Detector::FlashLoan(FlashLoanDetector::new()))
        .add_detector(Detector::PriceManipulation(PriceManipulationDetector::new()))
        .add_detector(Detector::Sandwich(SandwichDetector::new()))
        .add_detector(Detector::OracleManipulation(OracleManipulationDetector::new()));
    let events = vec![
        loan("FlashLoanTaken", 1, 2_000_000_000),
        swap(&simple_swap(11, 2100), "USDC"),
        swap(&simple_swap(12, 600), "USDT"),
        loan("FlashLoanRepaid", 1, 2_000_000_000),
    ];
    let out = pipeline.run(&events, &ctx("d", 1, 1));
    assert_eq!(out.len(), 2);
    assert_eq!(out[0].risk_type, RiskType::FlashLoanAttack);
    assert_eq!(out[1].risk_type, RiskType::PriceManipulation);
    assert_eq!(pipeline.detectors.len(), 4);
    assert_eq!(pipeline.detectors[2].name(), "SandwichDetector");
}

#[test]
fn target_package_filter() {
    let events = vec![loan("FlashLoanTaken", 1, 1)];
    assert!(involves_target_package(&events, &"0xabc".to_string()));
    assert!(!involves_target_package(&events, &"0xdef".to_string()));
    assert!(!involves_target_package(&Vec::new(), &"0xabc".to_string()));
}
