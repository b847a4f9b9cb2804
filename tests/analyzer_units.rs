use sui_indexer::codec::ObjectId;
use sui_indexer::events::{BorrowEvent, FlashLoanRepaid, FlashLoanTaken, ParsedEvents, SwapExecuted};
use sui_indexer::flash_loan::{FlashLoanAnalyzer, SwapInfo};
use sui_indexer::oracle_manipulation::{self, OracleManipulationAnalyzer};
use sui_indexer::price::{PriceAnalyzer, SwapImpact};
use sui_indexer::sandwich::{SandwichAnalyzer, SwapPattern};

fn flash_swap(pool: &str, token: &str) -> SwapInfo {
    SwapInfo {
        pool_id: pool.to_string(),
        sender: "addr1".to_string(),
        token_in_type: token.to_string(),
        amount_in: 1000,
        amount_out: 1000,
        price_impact: 100,
    }
}

#[test]
fn test_risk_scoring() {
    let analyzer = FlashLoanAnalyzer::new();
    assert_eq!(analyzer.min_swap_count, 2);
    assert_eq!(analyzer.price_impact_threshold, 500);
    assert_eq!(analyzer.high_price_impact_threshold, 1000);
}

#[test]
fn test_circular_trading_detection() {
    let analyzer = FlashLoanAnalyzer::new();
    let swaps = vec![flash_swap("pool1", "USDC"), flash_swap("pool2", "USDT"), flash_swap("pool1", "USDC")];
    assert!(analyzer.detect_circular_trading(&swaps));
}

#[test]
fn test_unique_pool_counting() {
    let analyzer = FlashLoanAnalyzer::new();
    let swaps = vec![flash_swap("pool1", "USDC"), flash_swap("pool2", "USDT"), flash_swap("pool1", "USDC")];
    assert_eq!(analyzer.count_unique_pools(&swaps), 2);
}

#[test]
fn no_circular_trading_without_return_to_start() {
    let analyzer = FlashLoanAnalyzer::new();
    let swaps = vec![flash_swap("pool1", "USDC"), flash_swap("pool2", "USDT"), flash_swap("pool3", "SUI")];
    assert!(!analyzer.detect_circular_trading(&swaps));
    assert!(!analyzer.detect_circular_trading(&swaps[..1]));
    assert_eq!(analyzer.count_unique_pools(&swaps), 3);
    assert_eq!(analyzer.count_unique_pools(&[]), 0);
}

#[test]
fn flash_loan_impact_totals() {
    let analyzer = FlashLoanAnalyzer::new();
    let mut swaps = vec![flash_swap("pool1", "USDC"), flash_swap("pool2", "USDT")];
    swaps[1].price_impact = 700;
    assert_eq!(analyzer.calculate_total_price_impact(&swaps), 800);
    assert_eq!(analyzer.calculate_max_price_impact(&swaps), 700);
    assert_eq!(analyzer.calculate_max_price_impact(&[]), 0);
    swaps[0].price_impact = u64::MAX;
    assert_eq!(analyzer.calculate_total_price_impact(&swaps), u64::MAX);
}

#[test]
fn test_analyzer_creation() {
    let analyzer = OracleManipulationAnalyzer::new();
    assert_eq!(analyzer.min_price_deviation, 1000);
    assert_eq!(analyzer.min_borrow_amount, 100_000_000);
}

#[test]
fn test_normal_price_estimation() {
    let analyzer = OracleManipulationAnalyzer::new();
    let swaps = vec![oracle_manipulation::SwapInfo {
        token_in: false,
        amount_in: 40_000_000_000,
        amount_out: 20_000_000,
        price_impact: 2000,
        reserve_a_before: 0,
        reserve_a_after: 100_000_000,
        reserve_b_after: 240_000_000_000,
        timestamp: 0,
    }];
    // Before the swap: A = 120M and B = 200B, so B * 1e9 / A is 1666.67 scaled by 1e9.
    let normal_price = analyzer.estimate_normal_price(&swaps);
    assert!(normal_price > 1600_000_000_000 && normal_price < 1700_000_000_000);
    assert_eq!(normal_price, 1_666_666_666_666);
}

#[test]
fn normal_price_exact_and_zero_reserve() {
    let analyzer = OracleManipulationAnalyzer::new();
    let mut swap = oracle_manipulation::SwapInfo {
        token_in: true,
        amount_in: 100,
        amount_out: 50,
        price_impact: 600,
        reserve_a_before: 0,
        reserve_a_after: 1100,
        reserve_b_after: 950,
        timestamp: 0,
    };
    // Before the swap: A = 1000, B = 1000, so the price is exactly 1e9.
    assert_eq!(analyzer.estimate_normal_price(&[swap]), 1_000_000_000);
    swap.reserve_a_after = 100;
    assert_eq!(analyzer.estimate_normal_price(&[swap]), 0);
    assert_eq!(analyzer.estimate_normal_price(&[]), 0);
}

#[test]
fn test_thresholds() {
    let analyzer = PriceAnalyzer::new();
    assert_eq!(analyzer.high_price_impact_threshold, 1000);
    assert_eq!(analyzer.critical_price_impact_threshold, 2000);
    assert_eq!(analyzer.twap_deviation_threshold, 500);
}

fn impact(pool: &str, amount_out: u64, price_impact: u64, reserve_a: u64, reserve_b: u64) -> SwapImpact {
    SwapImpact { pool_id: pool.to_string(), amount_in: 1000, amount_out, price_impact, reserve_a, reserve_b }
}

#[test]
fn test_pump_pattern_detection() {
    let analyzer = PriceAnalyzer::new();
    let swaps = vec![impact("pool1", 900, 500, 10000, 10000), impact("pool1", 850, 600, 11000, 9150)];
    assert!(analyzer.is_pump_pattern(&swaps));
}

#[test]
fn test_not_pump_pattern_different_pools() {
    let analyzer = PriceAnalyzer::new();
    let swaps = vec![impact("pool1", 900, 500, 10000, 10000), impact("pool2", 850, 600, 11000, 9150)];
    assert!(!analyzer.is_pump_pattern(&swaps));
}

#[test]
fn pump_pattern_needs_impact_and_two_swaps() {
    let analyzer = PriceAnalyzer::new();
    let low = vec![impact("pool1", 900, 500, 10000, 10000), impact("pool1", 850, 99, 11000, 9150)];
    assert!(!analyzer.is_pump_pattern(&low));
    assert!(!analyzer.is_pump_pattern(&low[..1]));
}

fn pattern(digest: &str, sender: &str, checkpoint: i64, timestamp_ms: i64, dir: bool, amount_in: u64, amount_out: u64, price_impact: u64) -> SwapPattern {
    SwapPattern {
        tx_digest: digest.to_string(),
        sender: sender.to_string(),
        pool_id: "pool1".to_string(),
        checkpoint,
        timestamp_ms,
        token_in_direction: dir,
        amount_in,
        amount_out,
        price_impact,
    }
}

#[test]
fn test_buffer_management() {
    let mut analyzer = SandwichAnalyzer::new();
    assert_eq!(analyzer.get_buffer_size(), 0);
    let swap = pattern("test1", "addr1", 1000, 1000000, true, 1000, 990, 100);
    analyzer.add_to_buffer(swap);
    assert_eq!(analyzer.get_buffer_size(), 1);
}

#[test]
fn test_buffer_cleanup() {
    let mut analyzer = SandwichAnalyzer::new();
    let old_swap = pattern("old", "addr1", 1000, 1000000, true, 1000, 990, 100);
    analyzer.add_to_buffer(old_swap);
    assert_eq!(analyzer.get_buffer_size(), 1);
    analyzer.cleanup_buffer(2000);
    assert_eq!(analyzer.get_buffer_size(), 0);
}

#[test]
fn cleanup_keeps_entries_within_twice_the_distance() {
    let mut analyzer = SandwichAnalyzer::new();
    analyzer.add_to_buffer(pattern("a", "addr1", 1000, 0, true, 1, 1, 100));
    analyzer.add_to_buffer(pattern("b", "addr1", 1001, 0, true, 1, 1, 100));
    analyzer.cleanup_buffer(1201);
    assert_eq!(analyzer.get_buffer_size(), 1);
    analyzer.cleanup_buffer(1200);
    assert_eq!(analyzer.get_buffer_size(), 1);
}

#[test]
fn buffer_never_exceeds_capacity() {
    let mut analyzer = SandwichAnalyzer::new();
    for i in 0..1005 {
        analyzer.add_to_buffer(pattern(&format!("tx{}", i), "addr1", 1000, i, true, 1, 1, 100));
    }
    assert_eq!(analyzer.get_buffer_size(), 1000);
}

#[test]
fn test_expected_output_estimation() {
    let analyzer = SandwichAnalyzer::new();
    let victim = SwapPattern {
        tx_digest: "victim".to_string(),
        sender: "victim_addr".to_string(),
        pool_id: "pool1".to_string(),
        checkpoint: 1001,
        timestamp_ms: 1001000,
        token_in_direction: true,
        amount_in: 1000,
        amount_out: 900,
        price_impact: 200,
    };
    let front_run = SwapPattern {
        tx_digest: "front".to_string(),
        sender: "attacker".to_string(),
        pool_id: "pool1".to_string(),
        checkpoint: 1000,
        timestamp_ms: 1000000,
        token_in_direction: true,
        amount_in: 500,
        amount_out: 495,
        price_impact: 500,
    };
    let expected = analyzer.estimate_expected_output(&victim, &front_run);
    assert!(expected > 900);
}

#[test]
fn expected_output_exact_and_clamped_divisor() {
    let analyzer = SandwichAnalyzer::new();
    let victim = pattern("v", "victim", 1, 1, true, 1000, 900, 200);
    let front = pattern("f", "attacker", 1, 1, true, 500, 495, 500);
    assert_eq!(analyzer.estimate_expected_output(&victim, &front), 947);
    let full = pattern("f", "attacker", 1, 1, true, 500, 495, 10000);
    assert_eq!(analyzer.estimate_expected_output(&victim, &full), 9_000_000);
    let over = pattern("f", "attacker", 1, 1, true, 500, 495, 20000);
    assert_eq!(analyzer.estimate_expected_output(&victim, &over), 9_000_000);
}

#[test]
fn sandwich_without_profit_scores_no_profit() {
    let mut analyzer = SandwichAnalyzer::new();
    analyzer.add_to_buffer(pattern("front", "attacker", 10, 100, true, 1000, 990, 500));
    analyzer.add_to_buffer(pattern("victim", "victim", 10, 200, true, 1000, 950, 200));
    let back = pattern("back", "attacker", 10, 300, false, 1000, 1000, 500);
    let m = analyzer.find_sandwich_pattern(&back).expect("sandwich");
    assert_eq!(m.attacker_profit, 0);
    assert_eq!(m.front_run.tx_digest, "front");
    assert_eq!(m.victim.tx_digest, "victim");
}

#[test]
fn no_sandwich_when_directions_match_or_victim_is_attacker() {
    let mut analyzer = SandwichAnalyzer::new();
    analyzer.add_to_buffer(pattern("front", "attacker", 10, 100, true, 1000, 990, 500));
    analyzer.add_to_buffer(pattern("self", "attacker", 10, 200, true, 1000, 950, 200));
    let back = pattern("back", "attacker", 10, 300, false, 1000, 1200, 500);
    assert!(analyzer.find_sandwich_pattern(&back).is_none());
    let same_dir = pattern("back", "attacker", 10, 300, true, 1000, 1200, 500);
    assert!(analyzer.find_sandwich_pattern(&same_dir).is_none());
}

#[test]
fn no_sandwich_when_front_run_too_old() {
    let mut analyzer = SandwichAnalyzer::new();
    analyzer.add_to_buffer(pattern("front", "attacker", 10, 100, true, 1000, 990, 500));
    analyzer.add_to_buffer(pattern("victim", "victim", 20, 200, true, 1000, 950, 200));
    let back = pattern("back", "attacker", 111, 300, false, 1000, 1200, 500);
    assert!(analyzer.find_sandwich_pattern(&back).is_none());
    let near = pattern("back", "attacker", 110, 300, false, 1000, 1200, 500);
    assert!(analyzer.find_sandwich_pattern(&near).is_some());
}

fn oid(s: &str) -> ObjectId {
    let v = u128::from_str_radix(s.trim_start_matches("0x"), 16).unwrap();
    ObjectId { hi: 0, lo: v }
}

#[test]
fn test_event_parser_names() {
    assert_eq!(SwapExecuted::event_name(), "SwapExecuted");
    assert_eq!(FlashLoanTaken::event_name(), "FlashLoanTaken");
    assert_eq!(BorrowEvent::event_name(), "BorrowEvent");
}

#[test]
fn test_parsed_events_helpers() {
    let mut parsed = ParsedEvents::default();
    assert!(!parsed.has_complete_flash_loan());
    assert!(!parsed.has_swaps());
    parsed.flash_loan_taken.push(FlashLoanTaken { pool_id: oid("0x1"), borrower: oid("0x2"), amount: 1000, fee: 10 });
    parsed.flash_loan_repaid.push(FlashLoanRepaid { pool_id: oid("0x1"), borrower: oid("0x2"), amount: 1000, fee: 10 });
    assert!(parsed.has_complete_flash_loan());
    assert_eq!(parsed.total_flash_loan_amount(), 1000);
}
