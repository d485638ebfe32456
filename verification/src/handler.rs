//! The per-connection decision logic.
//!
//! One connection is a loop: read, decode, execute, encode, write. The
//! transport performs the reads and writes and reports each outcome as an
//! event; this module decides, from the event alone, whether to answer
//! with bytes and keep the connection, or to release it. A malformed
//! payload is answered with a decode-failure response and the connection
//! stays open; only peer shutdown and transport failures close it.

use vstd::prelude::*;
use crate::codec::{
    decode_error_message, decode_request, encode_response, sp_decode_request, sp_encode_response,
    DecodeError,
};
use crate::engine::{error_model, error_response, unsupported_message, RustExecutionEngine};
use crate::messages::ResponseModel;

verus! {

/// What the transport observed on one connection.
pub enum ConnectionEvent {
    /// A read returned these bytes.
    Received(Vec<u8>),
    /// A read returned zero bytes: orderly shutdown by the peer.
    PeerClosed,
    /// A read failed.
    ReadFailed,
    /// The previous write failed.
    WriteFailed,
}

/// What the connection loop does next.
pub enum ConnectionAction {
    /// Write these bytes back and await the next message.
    Respond(Vec<u8>),
    /// Release the connection.
    Close,
}

/// Serves one inbound message: decode, execute, encode. Malformed bytes
/// yield the encoded decode-failure response; a message that decodes is
/// served by the engine, and an unknown exchange yields exactly its
/// unsupported-exchange response on the wire.
pub fn process_message(engine: &RustExecutionEngine, bytes: &[u8]) -> (out: Vec<u8>)
    requires
        engine.wf(),
    ensures
        sp_decode_request(bytes@) is None ==> out@ == sp_encode_response(
            error_model(decode_error_message()),
        ),
        sp_decode_request(bytes@) matches Some(req) ==> exists|m: ResponseModel|
            {
                &&& m.wf()
                &&& out@ == #[trigger] sp_encode_response(m)
                &&& !engine.spec_supports(req.primary_exchange) ==> m == error_model(
                    unsupported_message(req.primary_exchange),
                )
                &&& engine.spec_supports(req.primary_exchange) && !engine.spec_supports(
                    req.secondary_exchange,
                ) ==> m == error_model(unsupported_message(req.secondary_exchange))
            },
{
    match decode_request(bytes) {
        Ok(request) => {
            let resp = engine.execute_funding_rate_arbitrage(&request);
            let out = encode_response(&resp);
            proof {
                let m = resp@;
                assert(out@ == sp_encode_response(m));
            }
            out
        },
        Err(e) => decode_failure_response(&e),
    }
}

/// The connection state machine: a received message is always answered
/// and the connection kept; peer shutdown and transport failures release
/// it. Business failures never close a connection.
pub fn handle_connection_event(engine: &RustExecutionEngine, event: ConnectionEvent) -> (action:
    ConnectionAction)
    requires
        engine.wf(),
    ensures
        event matches ConnectionEvent::Received(bytes) ==> action matches
            ConnectionAction::Respond(out) && {
            &&& sp_decode_request(bytes@) is None ==> out@ == sp_encode_response(
                error_model(decode_error_message()),
            )
            &&& sp_decode_request(bytes@) matches Some(req) ==> exists|m: ResponseModel|
                {
                    &&& m.wf()
                    &&& out@ == #[trigger] sp_encode_response(m)
                    &&& !engine.spec_supports(req.primary_exchange) ==> m == error_model(
                        unsupported_message(req.primary_exchange),
                    )
                    &&& engine.spec_supports(req.primary_exchange) && !engine.spec_supports(
                        req.secondary_exchange,
                    ) ==> m == error_model(unsupported_message(req.secondary_exchange))
                }
        },
        !(event matches ConnectionEvent::Received(_)) ==> action is Close,
{
    match event {
        ConnectionEvent::Received(bytes) => ConnectionAction::Respond(
            process_message(engine, bytes.as_slice()),
        ),
        ConnectionEvent::PeerClosed => ConnectionAction::Close,
        ConnectionEvent::ReadFailed => ConnectionAction::Close,
        ConnectionEvent::WriteFailed => ConnectionAction::Close,
    }
}

/// Builds the response sent when a payload does not decode.
pub fn decode_failure_response(e: &DecodeError) -> (out: Vec<u8>)
    ensures
        out@ == sp_encode_response(error_model(decode_error_message())),
{
    proof {
        crate::codec::lemma_decode_message_plain();
    }
    let resp = error_response(e.message());
    encode_response(&resp)
}

} // verus!
