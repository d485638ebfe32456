//! Request and response records of the engine, with their mathematical
//! models and well-formedness invariants.
//!
//! String-valued fields are carried as UTF-8 bytes, exactly as they travel
//! on the wire. A byte string is *plain* when it can stand inside a JSON
//! string without escaping; every inbound string is checked to be plain by
//! the decoder, and the invariants below keep that fact through the engine.

use vstd::prelude::*;

verus! {

/// True of a byte that may stand unescaped inside a JSON string:
/// no control bytes, no quote, no backslash.
pub open spec fn plain_byte(b: u8) -> bool {
    b >= 0x20 && b != 0x22 && b != 0x5c
}

/// True of a byte string whose every byte is plain.
pub open spec fn plain_bytes(s: Seq<u8>) -> bool {
    forall|i: int| 0 <= i < s.len() ==> plain_byte(#[trigger] s[i])
}

/// Outcome marker of a response: exactly the two states the wire knows.
#[derive(Clone, Copy, PartialEq, Eq, Structural, Debug)]
pub enum Status {
    Success,
    Error,
}

/// One inbound arbitrage request. `amount_e8` is the notional size scaled
/// by `10^8`; the remaining fields are opaque identifiers.
#[derive(Debug, PartialEq, Eq)]
pub struct ArbitrageRequest {
    pub strategy_id: Vec<u8>,
    pub symbol: Vec<u8>,
    pub primary_exchange: Vec<u8>,
    pub secondary_exchange: Vec<u8>,
    pub amount_e8: u64,
    pub priority: i32,
    pub timestamp: Vec<u8>,
}

/// Mathematical model of a request.
pub ghost struct RequestModel {
    pub strategy_id: Seq<u8>,
    pub symbol: Seq<u8>,
    pub primary_exchange: Seq<u8>,
    pub secondary_exchange: Seq<u8>,
    pub amount_e8: u64,
    pub priority: i32,
    pub timestamp: Seq<u8>,
}

impl RequestModel {
    /// Invariant of a decoded request: all strings are plain and the
    /// notional amount is positive.
    pub open spec fn wf(self) -> bool {
        &&& plain_bytes(self.strategy_id)
        &&& plain_bytes(self.symbol)
        &&& plain_bytes(self.primary_exchange)
        &&& plain_bytes(self.secondary_exchange)
        &&& plain_bytes(self.timestamp)
        &&& self.amount_e8 > 0
    }
}

impl View for ArbitrageRequest {
    type V = RequestModel;

    open spec fn view(&self) -> RequestModel {
        RequestModel {
            strategy_id: self.strategy_id@,
            symbol: self.symbol@,
            primary_exchange: self.primary_exchange@,
            secondary_exchange: self.secondary_exchange@,
            amount_e8: self.amount_e8,
            priority: self.priority,
            timestamp: self.timestamp@,
        }
    }
}

/// One outbound response. `profit_e8` is scaled by `10^8`;
/// `execution_time_ms` is the measured wall-clock duration in
/// milliseconds, reported as zero on every failure path.
#[derive(Debug, PartialEq, Eq)]
pub struct ArbitrageResponse {
    pub status: Status,
    pub profit_e8: Option<u64>,
    pub execution_time_ms: u64,
    pub gas_used: Option<u64>,
    pub error_message: Option<Vec<u8>>,
}

/// Mathematical model of a response.
pub ghost struct ResponseModel {
    pub status: Status,
    pub profit_e8: Option<u64>,
    pub execution_time_ms: u64,
    pub gas_used: Option<u64>,
    pub error_message: Option<Seq<u8>>,
}

impl ResponseModel {
    /// Invariant of every response the engine produces: the
    /// status-dependent fields are populated exactly when the status
    /// calls for them, and the error text is plain.
    pub open spec fn wf(self) -> bool {
        &&& self.profit_e8 is Some <==> self.status == Status::Success
        &&& self.gas_used is Some <==> self.status == Status::Success
        &&& self.error_message is Some <==> self.status == Status::Error
        &&& self.error_message matches Some(m) ==> plain_bytes(m)
    }
}

impl View for ArbitrageResponse {
    type V = ResponseModel;

    open spec fn view(&self) -> ResponseModel {
        ResponseModel {
            status: self.status,
            profit_e8: self.profit_e8,
            execution_time_ms: self.execution_time_ms,
            gas_used: self.gas_used,
            error_message: match self.error_message {
                Some(ref m) => Some(m@),
                None => None,
            },
        }
    }
}

} // verus!
