use staking_keeper::events::Outcome;
use staking_keeper::prices::{
    parse_chaos_labs_batch_prices, JsonNumber, LastTradingPricesData, LastTradingPricesResponse,
    PriceData, PriceParseError, TradingPriceData,
};
use staking_keeper::supervisor::{
    fee_at_percentile, get_commitment, next_step, publish_fee, sort_fees, Command, Commitment, Phase, Signal,
};

fn price(feed_id: u8, p: JsonNumber, t: JsonNumber) -> TradingPriceData {
    TradingPriceData { symbol: "SOLUSD".to_string(), feed_id, price: p, timestamp: t, exponent: -8 }
}

fn response(signature: &str, prices: Vec<TradingPriceData>) -> LastTradingPricesResponse {
    LastTradingPricesResponse {
        success: true,
        data: LastTradingPricesData {
            latest_date: "2024-01-01".to_string(),
            latest_timestamp: JsonNumber::Unsigned(1_700_000_000),
            prices,
            signature: signature.to_string(),
            recovery_id: 1,
        },
    }
}

fn good_signature() -> String {
    let mut s = String::from("00ff1A");
    for _ in 0..61 {
        s.push_str("ab");
    }
    s
}

#[test]
fn supervisor_walks_through_an_attempt() {
    assert_eq!(next_step(Phase::Idle, Signal::Start), (Phase::Connecting, Command::TearDownAndConnect));
    assert_eq!(next_step(Phase::Connecting, Signal::Connected), (Phase::Bootstrapping, Command::Bootstrap));
    assert_eq!(next_step(Phase::Bootstrapping, Signal::Bootstrapped), (Phase::Streaming, Command::OpenStream));
    assert_eq!(
        next_step(Phase::Streaming, Signal::Processed(Outcome::Success)),
        (Phase::Streaming, Command::Schedule)
    );
}

#[test]
fn supervisor_retries_and_stops() {
    for p in [Phase::Connecting, Phase::Bootstrapping, Phase::Streaming] {
        assert_eq!(next_step(p, Signal::Failed(Outcome::Retryable)), (Phase::Backoff, Command::WaitBackoff));
        assert_eq!(next_step(p, Signal::Processed(Outcome::Retryable)), (Phase::Backoff, Command::WaitBackoff));
        assert_eq!(next_step(p, Signal::Failed(Outcome::Fatal)), (Phase::Stopped, Command::Exit));
    }
    assert_eq!(next_step(Phase::Backoff, Signal::BackoffElapsed), (Phase::Connecting, Command::TearDownAndConnect));
    assert_eq!(next_step(Phase::Streaming, Signal::Processed(Outcome::Fatal)), (Phase::Stopped, Command::Exit));
    assert_eq!(next_step(Phase::Stopped, Signal::Start), (Phase::Stopped, Command::Exit));
    assert_eq!(next_step(Phase::Idle, Signal::Connected), (Phase::Idle, Command::Ignore));
    assert_eq!(next_step(Phase::Backoff, Signal::Failed(Outcome::Retryable)), (Phase::Backoff, Command::Ignore));
}

#[test]
fn fee_sample_kept_on_failure() {
    assert_eq!(publish_fee(10, Some(25)), 25);
    assert_eq!(publish_fee(10, None), 10);
}

#[test]
fn commitment_defaults_to_processed() {
    assert_eq!(get_commitment(None), Commitment::Processed);
    assert_eq!(get_commitment(Some(Commitment::Finalized)), Commitment::Finalized);
}

#[test]
fn json_number_conversions() {
    assert_eq!(JsonNumber::Unsigned(5).as_u64(), Some(5));
    assert_eq!(JsonNumber::Negative(-5).as_u64(), None);
    assert_eq!(JsonNumber::Unsigned(u64::MAX).as_i64(), None);
    assert_eq!(JsonNumber::Negative(-5).as_i64(), Some(-5));
    assert_eq!(JsonNumber::Fractional.as_i64(), None);
}

#[test]
fn batch_prices_parse() {
    let r = parse_chaos_labs_batch_prices(&response(
        &good_signature(),
        vec![
            price(3, JsonNumber::Unsigned(150), JsonNumber::Unsigned(1_700_000_001)),
            price(4, JsonNumber::Unsigned(7), JsonNumber::Negative(-2)),
        ],
    ))
    .unwrap();
    assert_eq!(
        r.prices,
        vec![
            PriceData { feed_id: 3, price: 150, timestamp: 1_700_000_001 },
            PriceData { feed_id: 4, price: 7, timestamp: -2 },
        ]
    );
    assert_eq!(r.signature.len(), 64);
    assert_eq!(&r.signature[..4], &[0x00, 0xff, 0x1a, 0xab]);
    assert_eq!(r.recovery_id, 1);
}

#[test]
fn batch_prices_reject_bad_signature() {
    let r = parse_chaos_labs_batch_prices(&response("zz", vec![]));
    assert_eq!(r.unwrap_err(), PriceParseError::InvalidSignatureHex);
    let r = parse_chaos_labs_batch_prices(&response("abc", vec![]));
    assert_eq!(r.unwrap_err(), PriceParseError::InvalidSignatureHex);
    let r = parse_chaos_labs_batch_prices(&response("abcd", vec![]));
    assert_eq!(r.unwrap_err(), PriceParseError::InvalidSignatureLength);
}

#[test]
fn batch_prices_reject_bad_numbers() {
    let sig = good_signature();
    let r = parse_chaos_labs_batch_prices(&response(
        &sig,
        vec![price(1, JsonNumber::Negative(-1), JsonNumber::Unsigned(1))],
    ));
    assert_eq!(r.unwrap_err(), PriceParseError::PriceNotUnsigned);
    let r = parse_chaos_labs_batch_prices(&response(
        &sig,
        vec![price(1, JsonNumber::Unsigned(1), JsonNumber::Unsigned(u64::MAX))],
    ));
    assert_eq!(r.unwrap_err(), PriceParseError::TimestampNotSigned);
    let r = parse_chaos_labs_batch_prices(&response(
        &sig,
        vec![
            price(1, JsonNumber::Unsigned(1), JsonNumber::Fractional),
            price(2, JsonNumber::Fractional, JsonNumber::Unsigned(1)),
        ],
    ));
    assert_eq!(r.unwrap_err(), PriceParseError::TimestampNotSigned);
}

#[test]
fn fee_percentile_picks_sample() {
    let fees = vec![1u64, 2, 3, 4, 5, 6, 7, 8, 9, 10];
    assert_eq!(fee_at_percentile(&fees, 5000), Some(6));
    assert_eq!(fee_at_percentile(&fees, 0), Some(1));
    assert_eq!(fee_at_percentile(&fees, 10000), Some(10));
    assert_eq!(fee_at_percentile(&fees, 2500), Some(3));
    assert_eq!(fee_at_percentile(&vec![], 5000), None);
    assert_eq!(fee_at_percentile(&vec![42], 5000), Some(42));
    let shuffled = vec![9u64, 3, 10, 1, 6, 2, 8, 5, 7, 4];
    assert_eq!(fee_at_percentile(&shuffled, 5000), Some(6));
    assert_eq!(fee_at_percentile(&shuffled, 20000), Some(10));
}

#[test]
fn fee_samples_sort_ascending() {
    assert_eq!(sort_fees(&vec![5, 1, 5, 3, 0]), vec![0, 1, 3, 5, 5]);
    assert_eq!(sort_fees(&vec![]), Vec::<u64>::new());
}
