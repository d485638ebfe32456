use arb_engine::engine::{evaluate, EngineError, RustExecutionEngine, StrategyConfig};
use arb_engine::messages::{ArbitrageRequest, ArbitrageResponse, Status};
use arb_engine::rng::random;

fn sample_request(primary: &str, secondary: &str, amount_e8: u64) -> ArbitrageRequest {
    ArbitrageRequest {
        strategy_id: b"strat-1".to_vec(),
        symbol: b"BTCUSDT".to_vec(),
        primary_exchange: primary.as_bytes().to_vec(),
        secondary_exchange: secondary.as_bytes().to_vec(),
        amount_e8,
        priority: 1,
        timestamp: b"2024-01-01T00:00:00Z".to_vec(),
    }
}

#[test]
fn registry_holds_the_three_exchanges() {
    let engine = RustExecutionEngine::new();
    let names: Vec<&[u8]> = engine.exchanges.iter().map(|c| c.name.as_slice()).collect();
    assert_eq!(names, vec![&b"binance"[..], &b"bybit"[..], &b"okx"[..]]);
    assert_eq!(engine.exchanges[0].base_url, b"https://fapi.binance.com".to_vec());
    assert_eq!(engine.exchanges[1].base_url, b"https://api.bybit.com".to_vec());
    assert_eq!(engine.exchanges[2].base_url, b"https://www.okx.com".to_vec());
    assert!(engine.exchanges.iter().all(|c| c.api_key.is_empty() && c.secret_key.is_empty()));
    let providers: Vec<&[u8]> =
        engine.flash_loan_providers.iter().map(|p| p.as_slice()).collect();
    assert_eq!(providers, vec![&b"aave"[..], &b"dydx"[..], &b"compound"[..]]);
    assert_eq!(engine.gas_optimizer.current_gas_price, 20_000_000_000);
    assert_eq!(engine.gas_optimizer.max_gas_limit, 5_000_000);
    assert_eq!(engine.strategy.min_rate_diff_e8, 10_000);
    assert_eq!(engine.strategy.efficiency_percent, 95);
    assert_eq!(engine.strategy.success_percent, 90);
}

#[test]
fn funding_rate_stays_in_the_connector_band() {
    let engine = RustExecutionEngine::new();
    let rate = engine.get_funding_rate(b"binance", b"BTCUSDT").unwrap();
    assert!((10_000..30_000).contains(&rate));
    let rate = engine.get_funding_rate(b"okx", b"BTCUSDT").unwrap();
    assert!((30_000..50_000).contains(&rate));
}

#[test]
fn funding_rate_rejects_unknown_exchange() {
    let engine = RustExecutionEngine::new();
    match engine.get_funding_rate(b"kraken", b"BTCUSDT") {
        Err(EngineError::UnsupportedExchange(name)) => assert_eq!(name, b"kraken".to_vec()),
        other => panic!("expected an unsupported-exchange failure, got {:?}", other.is_ok()),
    }
}

// Scenario: rates 0.0005 and 0.0002 (difference 0.0003, above the 0.0001
// threshold) on a 10000 notional with forced success yield
// profit = 10000 * 0.0003 * 0.95 = 2.85.
#[test]
fn forced_success_yields_exact_profit() {
    let engine = RustExecutionEngine::new();
    let request = sample_request("binance", "bybit", 1_000_000_000_000);
    let resp = engine.execute_with_rates(&request, 50_000, 20_000, true, 5);
    assert_eq!(
        resp,
        ArbitrageResponse {
            status: Status::Success,
            profit_e8: Some(285_000_000),
            execution_time_ms: 5,
            gas_used: Some(20_000_000_000),
            error_message: None,
        }
    );
}

// Scenario: rates 0.0001 and 0.00011 differ by 0.00001, below the
// threshold: an error citing the insufficient difference, no profit.
#[test]
fn below_threshold_is_rejected() {
    let engine = RustExecutionEngine::new();
    let request = sample_request("binance", "bybit", 1_000_000_000_000);
    let resp = engine.execute_with_rates(&request, 10_000, 11_000, true, 5);
    assert_eq!(resp.status, Status::Error);
    assert_eq!(resp.profit_e8, None);
    assert_eq!(resp.gas_used, None);
    assert_eq!(resp.execution_time_ms, 0);
    assert_eq!(
        resp.error_message,
        Some(b"rate difference below threshold".to_vec())
    );
}

#[test]
fn below_threshold_ignores_the_amount() {
    let engine = RustExecutionEngine::new();
    for amount in [1u64, 1_000_000_000_000, u64::MAX] {
        let request = sample_request("binance", "bybit", amount);
        let resp = engine.execute_with_rates(&request, 10_000, 11_000, true, 0);
        assert_eq!(resp.status, Status::Error);
        assert_eq!(
            resp.error_message,
            Some(b"rate difference below threshold".to_vec())
        );
        assert_eq!(resp.profit_e8, None);
    }
}

#[test]
fn forced_failure_reports_execution_failed() {
    let engine = RustExecutionEngine::new();
    let request = sample_request("binance", "bybit", 1_000_000_000_000);
    let resp = engine.execute_with_rates(&request, 50_000, 20_000, false, 5);
    assert_eq!(resp.status, Status::Error);
    assert_eq!(resp.profit_e8, None);
    assert_eq!(resp.error_message, Some(b"execution attempt failed".to_vec()));
}

#[test]
fn unsupported_exchange_gives_error_response() {
    let engine = RustExecutionEngine::new();
    let request = sample_request("kraken", "bybit", 1_000_000_000_000);
    let resp = engine.execute_funding_rate_arbitrage(&request);
    assert_eq!(resp.status, Status::Error);
    assert_eq!(resp.profit_e8, None);
    assert_eq!(resp.gas_used, None);
    assert_eq!(
        resp.error_message,
        Some(b"unsupported exchange: kraken".to_vec())
    );
}

#[test]
fn unsupported_secondary_exchange_is_named() {
    let engine = RustExecutionEngine::new();
    let request = sample_request("binance", "deribit", 1_000_000_000_000);
    let resp = engine.execute_funding_rate_arbitrage(&request);
    assert_eq!(resp.status, Status::Error);
    assert_eq!(
        resp.error_message,
        Some(b"unsupported exchange: deribit".to_vec())
    );
}

// Status-dependent fields are populated exactly when the status calls for
// them, on both outcomes of a full engine run.
#[test]
fn response_fields_follow_the_status() {
    let engine = RustExecutionEngine::new();
    for _ in 0..32 {
        let request = sample_request("binance", "okx", 1_000_000_000_000);
        let resp = engine.execute_funding_rate_arbitrage(&request);
        match resp.status {
            Status::Success => {
                assert!(resp.profit_e8.is_some());
                assert!(resp.gas_used.is_some());
                assert!(resp.error_message.is_none());
                assert_eq!(resp.gas_used, Some(20_000_000_000));
            }
            Status::Error => {
                assert!(resp.profit_e8.is_none());
                assert!(resp.gas_used.is_none());
                assert!(resp.error_message.is_some());
                assert_eq!(resp.execution_time_ms, 0);
            }
        }
    }
}

#[test]
fn evaluate_matches_the_profit_formula() {
    let cfg = StrategyConfig { min_rate_diff_e8: 10_000, efficiency_percent: 95, success_percent: 90 };
    // 250 notional at a 0.0004 difference: 250 * 0.0004 * 0.95 = 0.095.
    assert_eq!(evaluate(&cfg, 50_000, 10_000, 25_000_000_000, true), Ok(9_500_000));
    // The direction of the difference does not matter.
    assert_eq!(evaluate(&cfg, 10_000, 50_000, 25_000_000_000, true), Ok(9_500_000));
    assert_eq!(evaluate(&cfg, 10_000, 19_999, 25_000_000_000, true), Err(EngineError::BelowThreshold));
    assert_eq!(evaluate(&cfg, 10_000, 20_000, 25_000_000_000, false), Err(EngineError::ExecutionFailed));
}

#[test]
fn random_draws_are_produced() {
    let a: u64 = random();
    let b: u64 = random();
    // Nothing is promised of the values; the call must simply come back.
    let _ = a.wrapping_add(b);
}
