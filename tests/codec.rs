use sui_indexer::action::{AlertAction, LogAction, MockDefenseAction};
use sui_indexer::codec::ObjectId;
use sui_indexer::events::{
    classify, ContractEvent, EventKind, FlashLoanTaken, LiquidationEvent, ParsedEvents, PoolCreated,
    PriceDeviationDetected, SwapExecuted, TWAPUpdated,
};
use sui_indexer::models::{EsFlattener, EsMoveCall};
use sui_indexer::risk::{DetailValue, RiskEvent, RiskLevel, RiskType};
use sui_indexer::text::{format_bps, format_currency, id_text};

fn bytes32(first: u8, last: u8) -> [u8; 32] {
    let mut b = [0u8; 32];
    b[0] = first;
    b[31] = last;
    b
}

#[test]
fn swap_decodes_from_canonical_encoding() {
    let payload = (bytes32(0xab, 1), bytes32(0, 2), true, 10u64, 20u64, 3u64, u64::MAX, 40u64, 250u64);
    let bytes = bcs::to_bytes(&payload).unwrap();
    let s = SwapExecuted::decode(&bytes).expect("decodes");
    assert_eq!(s.pool_id, ObjectId { hi: 0xab << 120, lo: 1 });
    assert_eq!(s.sender, ObjectId { hi: 0, lo: 2 });
    assert!(s.token_in);
    assert_eq!((s.amount_in, s.amount_out, s.fee_amount), (10, 20, 3));
    assert_eq!((s.reserve_a, s.reserve_b, s.price_impact), (u64::MAX, 40, 250));
}

#[test]
fn malformed_payloads_are_rejected() {
    let payload = (bytes32(0, 1), bytes32(0, 2), true, 10u64, 20u64, 3u64, 4u64, 40u64, 250u64);
    let mut bytes = bcs::to_bytes(&payload).unwrap();
    bytes[64] = 2;
    assert!(SwapExecuted::decode(&bytes).is_none());
    bytes[64] = 0;
    assert!(!SwapExecuted::decode(&bytes).unwrap().token_in);
    bytes.push(0);
    assert!(SwapExecuted::decode(&bytes).is_none());
    assert!(SwapExecuted::decode(&bytes[..50]).is_none());
}

#[test]
fn flash_loan_round_trip() {
    let payload = (bytes32(1, 2), bytes32(3, 4), 123_456_789u64, 9u64);
    let bytes = bcs::to_bytes(&payload).unwrap();
    let l = FlashLoanTaken::decode(&bytes).expect("decodes");
    assert_eq!(l.amount, 123_456_789);
    assert_eq!(l.fee, 9);
    assert_eq!(l.pool_id, ObjectId { hi: 1 << 120, lo: 2 });
    assert_eq!(l.borrower, ObjectId { hi: 3 << 120, lo: 4 });
}

#[test]
fn other_records_decode() {
    let p = bcs::to_bytes(&(bytes32(0, 1), 5u64, 6u64, bytes32(0, 7))).unwrap();
    let pc = PoolCreated::decode(&p).expect("decodes");
    assert_eq!((pc.initial_a, pc.initial_b, pc.creator.lo), (5, 6, 7));
    let l = bcs::to_bytes(&(bytes32(0, 1), bytes32(0, 2), bytes32(0, 3), bytes32(0, 4), 1u64, 2u64, 3u64, 4u64, 5u64, 6u64)).unwrap();
    let le = LiquidationEvent::decode(&l).expect("decodes");
    assert_eq!((le.position_id.lo, le.protocol_loss, le.timestamp), (4, 5, 6));
}

#[test]
fn twap_with_long_names_decodes() {
    let long = "x".repeat(300);
    let payload = (bytes32(0, 1), long.clone(), "B".to_string(), 1u64, 2u64, 3u64, 4u64, 5u64, 6u64);
    let bytes = bcs::to_bytes(&payload).unwrap();
    let t = TWAPUpdated::decode(&bytes).expect("decodes");
    assert_eq!(t.token_a, long.as_bytes().to_vec());
    assert_eq!(t.token_b, b"B".to_vec());
    assert_eq!((t.twap_price_a, t.spot_price_a, t.price_deviation, t.timestamp), (1, 3, 5, 6));
    let d = bcs::to_bytes(&(bytes32(0, 1), String::new(), "C".to_string(), 7u64, 8u64, 9u64, 10u64)).unwrap();
    let pd = PriceDeviationDetected::decode(&d).expect("decodes");
    assert_eq!((pd.twap_price, pd.spot_price, pd.deviation_bps, pd.timestamp), (7, 8, 9, 10));
    assert!(pd.token_a.is_empty());
}

#[test]
fn non_canonical_length_is_rejected() {
    let payload = (bytes32(0, 1), "A".to_string(), "B".to_string(), 1u64, 2u64, 3u64, 4u64);
    let mut bytes = bcs::to_bytes(&payload).unwrap();
    assert!(PriceDeviationDetected::decode(&bytes).is_some());
    // Length 1 written as 0x81 0x00 is not canonical.
    bytes[32] = 0x81;
    bytes.insert(33, 0x00);
    assert!(PriceDeviationDetected::decode(&bytes).is_none());
}

#[test]
fn event_names_select_decoders() {
    assert_eq!(classify(&"SwapExecuted".to_string()), Some(EventKind::SwapExecuted));
    assert_eq!(classify(&"Unknown".to_string()), None);
    let payload = bcs::to_bytes(&(bytes32(0, 1), bytes32(0, 2), 5u64, 1u64)).unwrap();
    let ev = ContractEvent { name: "FlashLoanRepaid".to_string(), package_id: String::new(), contents: payload.clone(), type_params: vec![] };
    assert!(FlashLoanTaken::from_event(&ev).is_none());
    let ev2 = ContractEvent { name: "FlashLoanTaken".to_string(), package_id: String::new(), contents: payload, type_params: vec![] };
    assert_eq!(FlashLoanTaken::from_event(&ev2).unwrap().amount, 5);
    let parsed = ParsedEvents::from_transaction(&vec![ev, ev2]);
    assert_eq!(parsed.flash_loan_taken.len(), 1);
    assert_eq!(parsed.flash_loan_repaid.len(), 1);
    assert!(parsed.has_complete_flash_loan());
    assert!(!parsed.has_borrows());
    assert_eq!(parsed.total_flash_loan_amount(), 5);
    assert_eq!(parsed.max_swap_price_impact(), 0);
}

#[test]
fn text_rendering() {
    assert_eq!(format_currency(0), "0");
    assert_eq!(format_currency(999), "999");
    assert_eq!(format_currency(1000), "1,000");
    assert_eq!(format_currency(1234567), "1,234,567");
    assert_eq!(format_currency(u64::MAX), "18,446,744,073,709,551,615");
    assert_eq!(format_bps(1234), "12.34%");
    assert_eq!(format_bps(5), "0.05%");
    assert_eq!(format_bps(10000), "100.00%");
    assert_eq!(id_text(ObjectId { hi: 0xab, lo: 0x10 }), format!("0x{:032x}{:032x}", 0xabu128, 0x10u128));
}

fn sample_event(level: RiskLevel) -> RiskEvent {
    RiskEvent::new(RiskType::SandwichAttack, level, "ABCDEFGHIJ".to_string(), "0xs".to_string(), -3, 4, "desc".to_string())
        .with_detail("k".to_string(), DetailValue::Unsigned(1))
        .with_detail("k".to_string(), DetailValue::Flag(true))
}

#[test]
fn log_line_and_alert_message() {
    let e = sample_event(RiskLevel::High);
    assert_eq!(LogAction::new().format_line(&e), "\u{26A0}\u{FE0F} [High] SandwichAttack detected: desc (tx: ABCDEFGH)");
    let a = AlertAction::new(None, RiskLevel::High);
    assert!(a.should_alert(&e));
    assert!(!a.should_alert(&sample_event(RiskLevel::Medium)));
    assert_eq!(a.get_color(&RiskLevel::Critical), 0xFF0000);
    assert_eq!(a.get_color(&RiskLevel::Low), 0x3498DB);
    let m = a.build_message(&e);
    assert_eq!(m.title, "\u{1F6A8} SandwichAttack Security Alert Detected!");
    assert_eq!(m.fields[0].value, "[View on Explorer](https://suiscan.xyz/testnet/tx/ABCDEFGHIJ)");
    assert_eq!(m.fields[1].value, "`0xs`");
    assert_eq!(m.fields[2].value, "-3");
    assert_eq!(m.footer, "Risk Level: High");
    assert_eq!(m.color, 0xE67E22);
    let d = MockDefenseAction::new(true);
    assert!(d.should_defend(&e));
    assert!(!d.should_defend(&sample_event(RiskLevel::Medium)));
    assert!(!MockDefenseAction::new(false).should_defend(&e));
    assert_eq!(e.details.len(), 2);
}

#[test]
fn move_call_sets_keep_first_occurrences() {
    let call = |p: &str, m: &str, f: &str| EsMoveCall {
        package: p.to_string(),
        module: m.to_string(),
        function: f.to_string(),
        full_name: format!("{}::{}::{}", p, m, f),
    };
    let calls = vec![call("0x2", "coin", "split"), call("0x3", "dex", "swap"), call("0x2", "dex", "split")];
    assert_eq!(EsFlattener::extract_packages(&calls), vec!["0x2".to_string(), "0x3".to_string()]);
    assert_eq!(EsFlattener::extract_modules(&calls), vec!["coin".to_string(), "dex".to_string()]);
    assert_eq!(EsFlattener::extract_functions(&calls), vec!["split".to_string(), "swap".to_string()]);
}
