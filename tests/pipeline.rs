use bridge_indexer::amount::{normalize_amount, ScaledAmount};
use bridge_indexer::cursor::{resume_block, GENESIS_BLOCK};
use bridge_indexer::events::{build_records, sender_is_zero, to_record, TransferEvent, PLACEHOLDER_CHAIN};
use bridge_indexer::persist::chunk_ranges;
use bridge_indexer::pipeline::{next_step, prepare_batch, Batch, Step};
use bridge_indexer::pricing::{advance_cursor, plan_pricing, record_amount, PipelineError, Pricing};
use bridge_indexer::registry::{
    build_registry, find_token, is_btc_token, is_usd_stablecoin, token_decimals, token_symbol, Token,
};
use bridge_indexer::text::{parse_decimals, parse_timestamp};

fn event(sender: u8, contract: &str, hash: &str, value: u128, ts: &str, sym: &str, dec: &str) -> TransferEvent {
    let mut from = [0u8; 20];
    from[19] = sender;
    TransferEvent {
        sender: from,
        contract: contract.to_string(),
        tx_hash: hash.to_string(),
        value,
        block_number: Some(4164200),
        timestamp: ts.to_string(),
        token_name: format!("{} token", sym),
        token_symbol: sym.to_string(),
        token_decimal: dec.to_string(),
    }
}

fn usd(rate: f32, a: ScaledAmount) -> f32 {
    rate * a.units as f32 / 10f32.powi(a.scale as i32)
}

#[test]
fn usd_of_six_decimal_amount() {
    let a = normalize_amount(1_500_000, 6);
    assert_eq!(a, ScaledAmount { units: 1_500_000, scale: 6 });
    assert_eq!(usd(2.0, a), 3.0);
}

#[test]
fn usd_of_two_decimal_amount() {
    let a = normalize_amount(500, 2);
    assert_eq!(a, ScaledAmount { units: 5, scale: 0 });
    assert_eq!(usd(1.0, a), 5.0);
}

#[test]
fn amount_truncates_past_six_places() {
    assert_eq!(normalize_amount(1_234_567_899, 9), ScaledAmount { units: 1_234_567, scale: 6 });
    assert_eq!(normalize_amount(999, 2), ScaledAmount { units: 9, scale: 0 });
    assert_eq!(normalize_amount(1_000_000_000_000_000_000, 18), ScaledAmount { units: 1_000_000, scale: 6 });
}

#[test]
fn amount_with_huge_precision() {
    assert_eq!(normalize_amount(u128::MAX, 44), ScaledAmount { units: 3, scale: 6 });
    assert_eq!(normalize_amount(u128::MAX, 45), ScaledAmount { units: 0, scale: 6 });
    assert_eq!(normalize_amount(u128::MAX, 4_000_000_000), ScaledAmount { units: 0, scale: 6 });
    assert_eq!(normalize_amount(u128::MAX, 0), ScaledAmount { units: u128::MAX, scale: 0 });
}

#[test]
fn decimals_parse_or_default() {
    assert_eq!(parse_decimals("6"), 6);
    assert_eq!(parse_decimals("+7"), 7);
    assert_eq!(parse_decimals("abc"), 18);
    assert_eq!(parse_decimals(""), 18);
    assert_eq!(parse_decimals("-1"), 18);
    assert_eq!(parse_decimals("4294967296"), 18);
    assert_eq!(parse_decimals("4294967295"), u32::MAX);
}

#[test]
fn timestamp_parse_or_zero() {
    assert_eq!(parse_timestamp("1687975200"), 1687975200);
    assert_eq!(parse_timestamp(" 12"), 0);
    assert_eq!(parse_timestamp("x"), 0);
}

#[test]
fn resume_on_empty_store_is_genesis() {
    assert_eq!(resume_block(None), GENESIS_BLOCK);
    assert_eq!(GENESIS_BLOCK, 4164120);
}

#[test]
fn resume_after_watermark() {
    assert_eq!(resume_block(Some(4200000)), 4200001);
    assert_eq!(resume_block(Some(0)), 1);
}

#[test]
fn zero_sender_detection() {
    assert!(sender_is_zero(&event(0, "0xa", "0x1", 1, "1", "X", "18")));
    assert!(!sender_is_zero(&event(1, "0xa", "0x1", 1, "1", "X", "18")));
    let mut e = event(0, "0xa", "0x1", 1, "1", "X", "18");
    e.sender[0] = 0x80;
    assert!(!sender_is_zero(&e));
}

#[test]
fn non_zero_sender_never_recorded() {
    let events = vec![
        event(0, "0xa", "0x01", 10, "100", "USDC", "6"),
        event(7, "0xa", "0x02", 20, "110", "USDC", "6"),
        event(0, "0xb", "0x03", 30, "120", "WETH", "18"),
    ];
    let recs = build_records(&events);
    assert_eq!(recs.len(), 2);
    assert_eq!(recs[0].tx_hash, "0x01");
    assert_eq!(recs[1].tx_hash, "0x03");
    assert!(recs.iter().all(|r| r.tx_hash != "0x02"));
}

#[test]
fn record_fields_and_missing_block() {
    let mut e = event(0, "0xabc", "0xfeed", 42, "1700000000", "WETH", "18");
    e.block_number = None;
    let r = to_record(&e);
    assert_eq!(r.tx_hash, "0xfeed");
    assert_eq!(r.token_addr, "0xabc");
    assert_eq!(r.token_count, 42);
    assert_eq!(r.block_num, 0);
    assert_eq!(r.timestamp, "1700000000");
    assert_eq!(r.to_chain, PLACEHOLDER_CHAIN);
    assert_eq!(r.to_chain, 1000);
}

#[test]
fn empty_fetch_writes_nothing() {
    assert!(prepare_batch(&vec![]).is_none());
    let events = vec![event(3, "0xa", "0x01", 10, "100", "USDC", "6")];
    assert!(prepare_batch(&events).is_none());
}

#[test]
fn batch_holds_records_and_tokens() {
    let events = vec![
        event(0, "0xa", "0x01", 10, "100", "USDC", "6"),
        event(0, "0xb", "0x02", 20, "110", "WETH", "18"),
        event(0, "0xa", "0x03", 30, "120", "USDC", "6"),
    ];
    let b = prepare_batch(&events).unwrap();
    assert_eq!(b.records.len(), 3);
    assert_eq!(b.tokens.len(), 2);
}

#[test]
fn registry_dedups_last_write_wins() {
    let events = vec![
        event(0, "0xa", "0x01", 10, "100", "USDC", "6"),
        event(0, "0xb", "0x02", 20, "110", "WETH", "bad"),
        event(5, "0xc", "0x03", 20, "110", "ZZZ", "2"),
        event(0, "0xa", "0x04", 30, "120", "USDC.e", "8"),
    ];
    let reg = build_registry(&events);
    assert_eq!(reg.len(), 2);
    let a = "0xa".to_string();
    let b = "0xb".to_string();
    let c = "0xc".to_string();
    assert_eq!(token_symbol(&reg, &a), "USDC.e");
    assert_eq!(token_decimals(&reg, &a), 8);
    assert_eq!(token_decimals(&reg, &b), 18);
    assert_eq!(find_token(&reg, &c), None);
    assert_eq!(token_decimals(&reg, &c), 18);
    assert_eq!(token_symbol(&reg, &c), "");
}

#[test]
fn default_token() {
    let t = Token::default();
    assert_eq!(t.decimals, 18);
    assert_eq!(t.contract_addr, "");
    assert_eq!(t.token_sym, "");
}

fn token(addr: &str, sym: &str, decimals: u32) -> Token {
    Token { contract_addr: addr.to_string(), token_name: sym.to_string(), token_sym: sym.to_string(), decimals }
}

#[test]
fn stablecoin_symbols() {
    let reg = vec![
        token("0x1", "USDT", 6),
        token("0x2", "xcUSDC", 6),
        token("0x3", "DAI.wh", 18),
        token("0x4", "WETH", 18),
        token("0x5", "WBTC", 8),
        token("0x6", "usdc", 6),
    ];
    assert!(is_usd_stablecoin(&reg, &"0x1".to_string()));
    assert!(is_usd_stablecoin(&reg, &"0x2".to_string()));
    assert!(is_usd_stablecoin(&reg, &"0x3".to_string()));
    assert!(!is_usd_stablecoin(&reg, &"0x4".to_string()));
    assert!(!is_usd_stablecoin(&reg, &"0x6".to_string()));
    assert!(!is_usd_stablecoin(&reg, &"0x9".to_string()));
    assert!(is_btc_token(&reg, &"0x5".to_string()));
    assert!(!is_btc_token(&reg, &"0x4".to_string()));
}

#[test]
fn cursor_picks_nearest_with_ties_to_earlier() {
    let series = vec![100u64, 200, 300];
    assert_eq!(advance_cursor(&series, 0, 160), 1);
    assert_eq!(advance_cursor(&series, 0, 150), 0);
    assert_eq!(advance_cursor(&series, 0, 250), 1);
    assert_eq!(advance_cursor(&series, 0, 0), 0);
    assert_eq!(advance_cursor(&series, 0, 1000), 2);
    assert_eq!(advance_cursor(&series, 2, 0), 2);
}

#[test]
fn cursor_on_single_sample() {
    let series = vec![500u64];
    assert_eq!(advance_cursor(&series, 0, 0), 0);
    assert_eq!(advance_cursor(&series, 0, u64::MAX), 0);
}

#[test]
fn plan_fails_on_empty_series() {
    let reg = vec![token("0x4", "WETH", 18)];
    let recs = build_records(&vec![event(0, "0x4", "0x01", 1, "100", "WETH", "18")]);
    assert_eq!(plan_pricing(&reg, &recs, &vec![]), Err(PipelineError::NoPriceData));
}

#[test]
fn plan_shares_cursor_across_batch() {
    let events = vec![
        event(0, "0x4", "0x01", 1, "120", "WETH", "18"),
        event(0, "0x1", "0x02", 1, "130", "USDT", "6"),
        event(0, "0x5", "0x03", 1, "140", "WBTC", "8"),
        event(0, "0x4", "0x04", 1, "290", "WETH", "18"),
        event(0, "0x4", "0x05", 1, "9999", "WETH", "18"),
    ];
    let b = prepare_batch(&events).unwrap();
    let series = vec![100u64, 200, 300, 400];
    let plan = plan_pricing(&b.tokens, &b.records, &series).unwrap();
    assert_eq!(
        plan,
        vec![Pricing::Sample(0), Pricing::Stable, Pricing::Unpriced, Pricing::Sample(2), Pricing::Sample(3)]
    );
}

#[test]
fn stablecoin_ignores_series() {
    let events = vec![event(0, "0x1", "0x01", 2_500_000, "100", "USDC", "6")];
    let b = prepare_batch(&events).unwrap();
    let p1 = plan_pricing(&b.tokens, &b.records, &vec![1u64]).unwrap();
    let p2 = plan_pricing(&b.tokens, &b.records, &vec![5u64, 90, 1000]).unwrap();
    assert_eq!(p1, vec![Pricing::Stable]);
    assert_eq!(p2, vec![Pricing::Stable]);
    let a = record_amount(&b.tokens, &b.records[0]);
    assert_eq!(usd(1.0, a), 2.5);
}

#[test]
fn unparsable_timestamp_counts_as_zero() {
    let events = vec![event(0, "0x4", "0x01", 1, "soon", "WETH", "18")];
    let b = prepare_batch(&events).unwrap();
    let plan = plan_pricing(&b.tokens, &b.records, &vec![10u64, 20]).unwrap();
    assert_eq!(plan, vec![Pricing::Sample(0)]);
}

#[test]
fn chunks_of_two_hundred_fifty() {
    assert_eq!(chunk_ranges(0), vec![]);
    assert_eq!(chunk_ranges(1), vec![(0, 1)]);
    assert_eq!(chunk_ranges(250), vec![(0, 250)]);
    assert_eq!(chunk_ranges(251), vec![(0, 250), (250, 251)]);
    assert_eq!(chunk_ranges(600), vec![(0, 250), (250, 500), (500, 600)]);
}

#[test]
fn run_steps_in_order() {
    assert_eq!(next_step(Step::ResolveCursor, false), Step::FetchEvents);
    assert_eq!(next_step(Step::FetchEvents, true), Step::ReconcileTokens);
    assert_eq!(next_step(Step::ReconcileTokens, false), Step::FetchPriceSeries);
    assert_eq!(next_step(Step::FetchPriceSeries, true), Step::MatchAndNormalize);
    assert_eq!(next_step(Step::MatchAndNormalize, true), Step::PersistBatch);
    assert_eq!(next_step(Step::PersistBatch, false), Step::Done);
}

#[test]
fn failed_fetches_end_the_run() {
    assert_eq!(next_step(Step::FetchEvents, false), Step::Done);
    assert_eq!(next_step(Step::FetchPriceSeries, false), Step::Done);
    assert_eq!(next_step(Step::Done, true), Step::Done);
}

#[test]
fn rerun_on_same_events_gives_same_records() {
    let events = vec![
        event(0, "0xa", "0x01", 10, "100", "USDC", "6"),
        event(0, "0xb", "0x02", 20, "110", "WETH", "18"),
    ];
    let first = prepare_batch(&events).unwrap();
    let second = prepare_batch(&events).unwrap();
    let hashes = |b: &Batch| b.records.iter().map(|r| r.tx_hash.clone()).collect::<Vec<_>>();
    assert_eq!(hashes(&first), hashes(&second));
    assert_eq!(hashes(&first), vec!["0x01".to_string(), "0x02".to_string()]);
}
