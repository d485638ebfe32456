use arb_engine::codec::{decode_request, decode_response, encode_response};
use arb_engine::messages::{ArbitrageResponse, Status};

#[test]
fn decode_request_reads_every_field() {
    let wire = b"{\"strategy_id\":\"strat-7\",\"symbol\":\"BTCUSDT\",\"primary_exchange\":\"binance\",\"secondary_exchange\":\"bybit\",\"amount\":10000,\"priority\":1,\"timestamp\":\"2024-01-01T00:00:00Z\"}";
    let req = decode_request(wire).unwrap();
    assert_eq!(req.strategy_id, b"strat-7".to_vec());
    assert_eq!(req.symbol, b"BTCUSDT".to_vec());
    assert_eq!(req.primary_exchange, b"binance".to_vec());
    assert_eq!(req.secondary_exchange, b"bybit".to_vec());
    assert_eq!(req.amount_e8, 1_000_000_000_000);
    assert_eq!(req.priority, 1);
    assert_eq!(req.timestamp, b"2024-01-01T00:00:00Z".to_vec());
}

#[test]
fn decode_request_reads_fractional_amounts_and_signs() {
    let wire = b"{\"strategy_id\":\"s\",\"symbol\":\"ETHUSDT\",\"primary_exchange\":\"okx\",\"secondary_exchange\":\"bybit\",\"amount\":0.0003,\"priority\":-3,\"timestamp\":\"t\"}";
    let req = decode_request(wire).unwrap();
    assert_eq!(req.amount_e8, 30_000);
    assert_eq!(req.priority, -3);
    let wire = b"{\"strategy_id\":\"s\",\"symbol\":\"ETHUSDT\",\"primary_exchange\":\"okx\",\"secondary_exchange\":\"bybit\",\"amount\":12.5,\"priority\":0,\"timestamp\":\"t\"}";
    assert_eq!(decode_request(wire).unwrap().amount_e8, 1_250_000_000);
}

#[test]
fn decode_request_rejects_malformed_payloads() {
    // Truncated object.
    assert!(decode_request(b"{\"strategy_id\":\"s\",\"symbol\":\"BT").is_err());
    // Not an object at all.
    assert!(decode_request(b"hello").is_err());
    assert!(decode_request(b"").is_err());
    // Unknown field in place of an expected one.
    assert!(decode_request(
        b"{\"strategy_id\":\"s\",\"sym\":\"B\",\"primary_exchange\":\"a\",\"secondary_exchange\":\"b\",\"amount\":1,\"priority\":1,\"timestamp\":\"t\"}"
    )
    .is_err());
    // Missing field.
    assert!(decode_request(
        b"{\"strategy_id\":\"s\",\"symbol\":\"B\",\"primary_exchange\":\"a\",\"amount\":1,\"priority\":1,\"timestamp\":\"t\"}"
    )
    .is_err());
    // Zero amount breaks the record invariant.
    assert!(decode_request(
        b"{\"strategy_id\":\"s\",\"symbol\":\"B\",\"primary_exchange\":\"a\",\"secondary_exchange\":\"b\",\"amount\":0,\"priority\":1,\"timestamp\":\"t\"}"
    )
    .is_err());
    // Nine fractional digits exceed the fixed-point resolution.
    assert!(decode_request(
        b"{\"strategy_id\":\"s\",\"symbol\":\"B\",\"primary_exchange\":\"a\",\"secondary_exchange\":\"b\",\"amount\":1.000000001,\"priority\":1,\"timestamp\":\"t\"}"
    )
    .is_err());
    // Trailing bytes after the object.
    assert!(decode_request(
        b"{\"strategy_id\":\"s\",\"symbol\":\"B\",\"primary_exchange\":\"a\",\"secondary_exchange\":\"b\",\"amount\":1,\"priority\":1,\"timestamp\":\"t\"}x"
    )
    .is_err());
}

#[test]
fn encode_success_response_exact_bytes() {
    let resp = ArbitrageResponse {
        status: Status::Success,
        profit_e8: Some(285_000_000),
        execution_time_ms: 5,
        gas_used: Some(20_000_000_000),
        error_message: None,
    };
    let out = encode_response(&resp);
    assert_eq!(
        out,
        b"{\"status\":\"success\",\"profit\":2.85,\"execution_time\":\"5ms\",\"gas_used\":20000000000,\"error_message\":null}".to_vec()
    );
}

#[test]
fn encode_error_response_exact_bytes() {
    let resp = ArbitrageResponse {
        status: Status::Error,
        profit_e8: None,
        execution_time_ms: 0,
        gas_used: None,
        error_message: Some(b"rate difference below threshold".to_vec()),
    };
    let out = encode_response(&resp);
    assert_eq!(
        out,
        b"{\"status\":\"error\",\"profit\":null,\"execution_time\":\"0ms\",\"gas_used\":null,\"error_message\":\"rate difference below threshold\"}".to_vec()
    );
}

#[test]
fn encode_whole_number_profit_keeps_no_fraction() {
    let resp = ArbitrageResponse {
        status: Status::Success,
        profit_e8: Some(300_000_000_000),
        execution_time_ms: 12,
        gas_used: Some(1),
        error_message: None,
    };
    let out = encode_response(&resp);
    assert_eq!(
        out,
        b"{\"status\":\"success\",\"profit\":3000,\"execution_time\":\"12ms\",\"gas_used\":1,\"error_message\":null}".to_vec()
    );
}

// Encoding a response and decoding it back yields an object equal in all
// populated fields.
#[test]
fn response_round_trip_success() {
    let resp = ArbitrageResponse {
        status: Status::Success,
        profit_e8: Some(285_000_000),
        execution_time_ms: 17,
        gas_used: Some(20_000_000_000),
        error_message: None,
    };
    let wire = encode_response(&resp);
    let back = decode_response(wire.as_slice()).unwrap();
    assert_eq!(back, resp);
}

#[test]
fn response_round_trip_error() {
    let resp = ArbitrageResponse {
        status: Status::Error,
        profit_e8: None,
        execution_time_ms: 0,
        gas_used: None,
        error_message: Some(b"unsupported exchange: kraken".to_vec()),
    };
    let wire = encode_response(&resp);
    let back = decode_response(wire.as_slice()).unwrap();
    assert_eq!(back, resp);
}

#[test]
fn response_round_trip_fractional_profits() {
    for profit in [1u64, 10, 100_000_000, 123_456_789, 5_000_000, 999_999_999_999] {
        let resp = ArbitrageResponse {
            status: Status::Success,
            profit_e8: Some(profit),
            execution_time_ms: u64::MAX,
            gas_used: Some(u64::MAX),
            error_message: None,
        };
        let wire = encode_response(&resp);
        let back = decode_response(wire.as_slice()).unwrap();
        assert_eq!(back, resp);
    }
}

#[test]
fn decode_response_rejects_inconsistent_records() {
    // A success whose profit is null contradicts its own status.
    assert!(decode_response(
        b"{\"status\":\"success\",\"profit\":null,\"execution_time\":\"0ms\",\"gas_used\":null,\"error_message\":null}"
    )
    .is_err());
    // An unknown status word.
    assert!(decode_response(
        b"{\"status\":\"pending\",\"profit\":null,\"execution_time\":\"0ms\",\"gas_used\":null,\"error_message\":\"x\"}"
    )
    .is_err());
}
