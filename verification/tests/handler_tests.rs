use arb_engine::codec::decode_response;
use arb_engine::engine::RustExecutionEngine;
use arb_engine::handler::{handle_connection_event, process_message, ConnectionAction, ConnectionEvent};
use arb_engine::messages::Status;

fn request_wire(strategy_id: &str, primary: &str, secondary: &str) -> Vec<u8> {
    format!(
        "{{\"strategy_id\":\"{}\",\"symbol\":\"BTCUSDT\",\"primary_exchange\":\"{}\",\"secondary_exchange\":\"{}\",\"amount\":10000,\"priority\":1,\"timestamp\":\"2024-01-01T00:00:00Z\"}}",
        strategy_id, primary, secondary
    )
    .into_bytes()
}

// A malformed payload is answered with a decode-failure response, and the
// handler then still serves a well-formed request: the connection state
// machine never closes on a business failure.
#[test]
fn malformed_then_wellformed_on_one_connection() {
    let engine = RustExecutionEngine::new();
    let first = handle_connection_event(&engine, ConnectionEvent::Received(b"not json at all".to_vec()));
    let out = match first {
        ConnectionAction::Respond(out) => out,
        ConnectionAction::Close => panic!("a malformed payload must not close the connection"),
    };
    let resp = decode_response(out.as_slice()).unwrap();
    assert_eq!(resp.status, Status::Error);
    assert_eq!(
        resp.error_message,
        Some(b"decode error: malformed arbitrage request".to_vec())
    );
    let second = handle_connection_event(&engine, ConnectionEvent::Received(request_wire("s", "binance", "okx")));
    match second {
        ConnectionAction::Respond(out) => {
            let resp = decode_response(out.as_slice()).unwrap();
            match resp.status {
                Status::Success => assert!(resp.profit_e8.is_some()),
                Status::Error => assert!(resp.error_message.is_some()),
            }
        }
        ConnectionAction::Close => panic!("a served request must keep the connection open"),
    }
}

#[test]
fn transport_events_close_the_connection() {
    let engine = RustExecutionEngine::new();
    assert!(matches!(
        handle_connection_event(&engine, ConnectionEvent::PeerClosed),
        ConnectionAction::Close
    ));
    assert!(matches!(
        handle_connection_event(&engine, ConnectionEvent::ReadFailed),
        ConnectionAction::Close
    ));
    assert!(matches!(
        handle_connection_event(&engine, ConnectionEvent::WriteFailed),
        ConnectionAction::Close
    ));
}

// Responses are a function of their own request: two requests served side
// by side each carry their own diagnostic, with no cross-contamination.
#[test]
fn responses_stay_independent_across_requests() {
    let engine = RustExecutionEngine::new();
    let out_a = process_message(&engine, request_wire("client-a", "krakenA", "bybit").as_slice());
    let out_b = process_message(&engine, request_wire("client-b", "krakenB", "bybit").as_slice());
    let resp_a = decode_response(out_a.as_slice()).unwrap();
    let resp_b = decode_response(out_b.as_slice()).unwrap();
    assert_eq!(
        resp_a.error_message,
        Some(b"unsupported exchange: krakenA".to_vec())
    );
    assert_eq!(
        resp_b.error_message,
        Some(b"unsupported exchange: krakenB".to_vec())
    );
}

#[test]
fn every_served_message_is_a_parseable_response() {
    let engine = RustExecutionEngine::new();
    let payloads: Vec<Vec<u8>> = vec![
        request_wire("a", "binance", "bybit"),
        request_wire("b", "okx", "okx"),
        request_wire("c", "nowhere", "bybit"),
        b"garbage".to_vec(),
        b"".to_vec(),
    ];
    for p in payloads {
        let out = process_message(&engine, p.as_slice());
        let resp = decode_response(out.as_slice()).unwrap();
        match resp.status {
            Status::Success => {
                assert!(resp.profit_e8.is_some() && resp.gas_used.is_some());
                assert!(resp.error_message.is_none());
            }
            Status::Error => {
                assert!(resp.profit_e8.is_none() && resp.gas_used.is_none());
                assert!(resp.error_message.is_some());
            }
        }
    }
}
