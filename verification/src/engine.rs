//! The arbitrage engine: exchange registry, funding-rate source, decision
//! rule and response construction.
//!
//! All quantities are fixed-point integers scaled by `10^8`. The decision
//! rule is exact: a request succeeds with
//! `profit = amount * |rate_a - rate_b| * efficiency / 100` (at the `10^8`
//! scale) when the rate difference reaches the configured threshold and
//! the simulated execution comes through, and otherwise yields one of the
//! three engine errors. The probabilistic and clock-dependent inputs are
//! drawn once and handed to deterministic, fully specified functions.

use vstd::prelude::*;
use vstd::string::StringSliceAdditionalSpecFns;
use vstd::string::StrSliceExecFns;
use vstd::arithmetic::div_mod::lemma_fundamental_div_mod;
use vstd::arithmetic::mul::lemma_mul_inequality;
use crate::messages::{
    plain_bytes, ArbitrageRequest, ArbitrageResponse, ResponseModel, Status,
};
use crate::clock;
use crate::rng;

verus! {

broadcast use vstd::string::is_ascii_spec_bytes;

/// Width of the synthetic noise band added to an exchange's anchor rate.
pub const RATE_NOISE_SPAN_E8: u64 = 20_000;

/// Upper bound on any rate the engine's sources report (`10^-2` at the
/// `10^8` scale); it keeps every profit computation inside `u64`.
pub const MAX_RATE_E8: u64 = 1_000_000;

/// Divisor of the profit formula: the `10^8` scale times the percent base.
pub const PROFIT_DIVISOR: u64 = 10_000_000_000;

/// The absolute difference of two rates.
pub open spec fn abs_diff(a: u64, b: u64) -> u64 {
    if a >= b {
        (a - b) as u64
    } else {
        (b - a) as u64
    }
}

/// The exact profit of a successful execution: notional amount times the
/// absolute rate difference times the efficiency percentage, all at the
/// `10^8` scale.
pub open spec fn spec_profit(amount_e8: u64, diff_e8: u64, efficiency_percent: u64) -> int {
    (amount_e8 * diff_e8 * efficiency_percent) / (PROFIT_DIVISOR as int)
}

/// A failure of one request; every variant carries a fixed diagnostic
/// message, the unsupported-exchange one naming the offending identifier.
#[derive(Debug, PartialEq, Eq)]
pub enum EngineError {
    UnsupportedExchange(Vec<u8>),
    BelowThreshold,
    ExecutionFailed,
}

/// Message prefix of an `UnsupportedExchange` failure.
pub open spec fn unsupported_prefix() -> Seq<u8> {
    "unsupported exchange: ".spec_bytes()
}

/// Full message of an `UnsupportedExchange` failure for `name`.
pub open spec fn unsupported_message(name: Seq<u8>) -> Seq<u8> {
    unsupported_prefix() + name
}

/// Message of a `BelowThreshold` failure.
pub open spec fn below_threshold_message() -> Seq<u8> {
    "rate difference below threshold".spec_bytes()
}

/// Message of an `ExecutionFailed` failure.
pub open spec fn execution_failed_message() -> Seq<u8> {
    "execution attempt failed".spec_bytes()
}

impl EngineError {
    /// The diagnostic text of this failure.
    pub open spec fn spec_message(&self) -> Seq<u8> {
        match self {
            EngineError::UnsupportedExchange(name) => unsupported_message(name@),
            EngineError::BelowThreshold => below_threshold_message(),
            EngineError::ExecutionFailed => execution_failed_message(),
        }
    }

    /// Renders the diagnostic text.
    pub fn message(&self) -> (out: Vec<u8>)
        ensures
            out@ == self.spec_message(),
    {
        match self {
            EngineError::UnsupportedExchange(name) => {
                let mut out = "unsupported exchange: ".as_bytes_vec();
                out.extend_from_slice(name.as_slice());
                out
            },
            EngineError::BelowThreshold => "rate difference below threshold".as_bytes_vec(),
            EngineError::ExecutionFailed => "execution attempt failed".as_bytes_vec(),
        }
    }
}

/// The fixed diagnostic texts contain only plain bytes.
pub proof fn lemma_fixed_messages_plain()
    ensures
        plain_bytes(unsupported_prefix()),
        plain_bytes(below_threshold_message()),
        plain_bytes(execution_failed_message()),
{
    reveal_strlit("unsupported exchange: ");
    reveal_strlit("rate difference below threshold");
    reveal_strlit("execution attempt failed");
    assert(vstd::string::is_ascii("unsupported exchange: "));
    assert(vstd::string::is_ascii("rate difference below threshold"));
    assert(vstd::string::is_ascii("execution attempt failed"));
}

/// Plainness is preserved by concatenation.
pub proof fn lemma_plain_concat(a: Seq<u8>, b: Seq<u8>)
    requires
        plain_bytes(a),
        plain_bytes(b),
    ensures
        plain_bytes(a + b),
{
    assert forall|i: int| 0 <= i < (a + b).len() implies crate::messages::plain_byte(
        #[trigger] (a + b)[i],
    ) by {
        if i < a.len() {
            assert((a + b)[i] == a[i]);
        } else {
            assert((a + b)[i] == b[i - a.len()]);
        }
    }
}

/// The message of any engine error whose embedded name is plain is plain.
pub proof fn lemma_error_message_plain(e: &EngineError)
    requires
        e matches EngineError::UnsupportedExchange(name) ==> plain_bytes(name@),
    ensures
        plain_bytes(e.spec_message()),
{
    lemma_fixed_messages_plain();
    match e {
        EngineError::UnsupportedExchange(name) => {
            lemma_plain_concat(unsupported_prefix(), name@);
        },
        _ => {},
    }
}

/// Connector metadata of one configured exchange. `rate_anchor_e8` anchors
/// the synthetic funding-rate band the reference data source reports.
pub struct ExchangeConnector {
    pub name: Vec<u8>,
    pub base_url: Vec<u8>,
    pub api_key: Vec<u8>,
    pub secret_key: Vec<u8>,
    pub rate_anchor_e8: u64,
}

/// Cost-accounting constants attached to successful responses.
pub struct GasOptimizer {
    pub current_gas_price: u64,
    pub max_gas_limit: u64,
}

/// Tunables of the execution strategy: the minimum exploitable rate
/// difference, the share of the expected profit that survives slippage
/// and fees, and the simulated success probability, both in percent.
pub struct StrategyConfig {
    pub min_rate_diff_e8: u64,
    pub efficiency_percent: u64,
    pub success_percent: u64,
}

impl StrategyConfig {
    pub open spec fn wf(&self) -> bool {
        &&& self.efficiency_percent <= 100
        &&& self.success_percent <= 100
    }
}

/// The process-wide engine: an exchange registry, the informational list
/// of flash-loan providers, the gas constants and the strategy tunables.
/// It is built once at startup and only read afterwards.
pub struct RustExecutionEngine {
    pub exchanges: Vec<ExchangeConnector>,
    pub flash_loan_providers: Vec<Vec<u8>>,
    pub gas_optimizer: GasOptimizer,
    pub strategy: StrategyConfig,
}

impl RustExecutionEngine {
    /// Every anchor leaves room for the noise band under the global rate
    /// cap, and the strategy percentages are in range.
    pub open spec fn wf(&self) -> bool {
        &&& self.strategy.wf()
        &&& forall|i: int|
            0 <= i < self.exchanges@.len() ==> (#[trigger] self.exchanges@[i].rate_anchor_e8)
                + RATE_NOISE_SPAN_E8 <= MAX_RATE_E8
    }

    /// True when some configured connector carries `name`.
    pub open spec fn spec_supports(&self, name: Seq<u8>) -> bool {
        exists|i: int|
            0 <= i < self.exchanges@.len() && (#[trigger] self.exchanges@[i].name@) == name
    }

    /// The startup configuration: three exchange connectors with
    /// credential placeholders, three informational flash-loan providers,
    /// the gas constants, and the default strategy tunables.
    pub fn new() -> (engine: Self)
        ensures
            engine.wf(),
            engine.exchanges@.len() == 3,
            engine.exchanges@[0].name@ == "binance".spec_bytes(),
            engine.exchanges@[0].base_url@ == "https://fapi.binance.com".spec_bytes(),
            engine.exchanges@[0].rate_anchor_e8 == 10_000,
            engine.exchanges@[1].name@ == "bybit".spec_bytes(),
            engine.exchanges@[1].base_url@ == "https://api.bybit.com".spec_bytes(),
            engine.exchanges@[1].rate_anchor_e8 == 20_000,
            engine.exchanges@[2].name@ == "okx".spec_bytes(),
            engine.exchanges@[2].base_url@ == "https://www.okx.com".spec_bytes(),
            engine.exchanges@[2].rate_anchor_e8 == 30_000,
            forall|i: int|
                0 <= i < 3 ==> (#[trigger] engine.exchanges@[i].api_key@).len() == 0
                    && engine.exchanges@[i].secret_key@.len() == 0,
            engine.flash_loan_providers@.len() == 3,
            engine.flash_loan_providers@[0]@ == "aave".spec_bytes(),
            engine.flash_loan_providers@[1]@ == "dydx".spec_bytes(),
            engine.flash_loan_providers@[2]@ == "compound".spec_bytes(),
            engine.gas_optimizer.current_gas_price == 20_000_000_000,
            engine.gas_optimizer.max_gas_limit == 5_000_000,
            engine.strategy.min_rate_diff_e8 == 10_000,
            engine.strategy.efficiency_percent == 95,
            engine.strategy.success_percent == 90,
    {
        let mut exchanges: Vec<ExchangeConnector> = Vec::new();
        exchanges.push(ExchangeConnector {
            name: "binance".as_bytes_vec(),
            base_url: "https://fapi.binance.com".as_bytes_vec(),
            api_key: "".as_bytes_vec(),
            secret_key: "".as_bytes_vec(),
            rate_anchor_e8: 10_000,
        });
        exchanges.push(ExchangeConnector {
            name: "bybit".as_bytes_vec(),
            base_url: "https://api.bybit.com".as_bytes_vec(),
            api_key: "".as_bytes_vec(),
            secret_key: "".as_bytes_vec(),
            rate_anchor_e8: 20_000,
        });
        exchanges.push(ExchangeConnector {
            name: "okx".as_bytes_vec(),
            base_url: "https://www.okx.com".as_bytes_vec(),
            api_key: "".as_bytes_vec(),
            secret_key: "".as_bytes_vec(),
            rate_anchor_e8: 30_000,
        });
        let mut flash_loan_providers: Vec<Vec<u8>> = Vec::new();
        flash_loan_providers.push("aave".as_bytes_vec());
        flash_loan_providers.push("dydx".as_bytes_vec());
        flash_loan_providers.push("compound".as_bytes_vec());
        proof {
            reveal_strlit("");
        }
        RustExecutionEngine {
            exchanges,
            flash_loan_providers,
            gas_optimizer: GasOptimizer {
                current_gas_price: 20_000_000_000,
                max_gas_limit: 5_000_000,
            },
            strategy: StrategyConfig {
                min_rate_diff_e8: 10_000,
                efficiency_percent: 95,
                success_percent: 90,
            },
        }
    }

    /// The funding rate of `exchange` for `symbol`: a synthetic value in
    /// the connector's noise band when the exchange is configured, and an
    /// `UnsupportedExchange` failure naming it otherwise. The reference
    /// data source ignores the symbol.
    pub fn get_funding_rate(&self, exchange: &[u8], symbol: &[u8]) -> (r: Result<u64, EngineError>)
        requires
            self.wf(),
        ensures
            r is Ok <==> self.spec_supports(exchange@),
            r matches Ok(rate) ==> rate <= MAX_RATE_E8 && exists|i: int|
                0 <= i < self.exchanges@.len() && (#[trigger] self.exchanges@[i].name@)
                    == exchange@ && self.exchanges@[i].rate_anchor_e8 <= rate
                    < self.exchanges@[i].rate_anchor_e8 + RATE_NOISE_SPAN_E8,
            r matches Err(e) ==> e matches EngineError::UnsupportedExchange(n) && n@ == exchange@,
    {
        let _ = symbol;
        let mut k: usize = 0;
        let n = self.exchanges.len();
        while k < n
            invariant
                self.wf(),
                n == self.exchanges@.len(),
                k <= n,
                forall|j: int| 0 <= j < k ==> (#[trigger] self.exchanges@[j].name@) != exchange@,
            decreases n - k,
        {
            if bytes_eq(self.exchanges[k].name.as_slice(), exchange) {
                let anchor = self.exchanges[k].rate_anchor_e8;
                let noise = rng::random::<u64>() % RATE_NOISE_SPAN_E8;
                return Ok(anchor + noise);
            }
            k = k + 1;
        }
        Err(EngineError::UnsupportedExchange(vstd::slice::slice_to_vec(exchange)))
    }

    /// One request end to end with the chance-dependent inputs fixed:
    /// the two rates as observed, whether the simulated execution comes
    /// through, and the measured duration. The outcome is exact in every
    /// case.
    pub fn execute_with_rates(
        &self,
        request: &ArbitrageRequest,
        primary_rate: u64,
        secondary_rate: u64,
        execute_ok: bool,
        elapsed_ms: u64,
    ) -> (resp: ArbitrageResponse)
        requires
            self.wf(),
            spec_profit(
                request.amount_e8,
                abs_diff(primary_rate, secondary_rate),
                self.strategy.efficiency_percent,
            ) <= u64::MAX,
        ensures
            resp@.wf(),
            abs_diff(primary_rate, secondary_rate) < self.strategy.min_rate_diff_e8 ==> resp@
                == error_model(below_threshold_message()),
            abs_diff(primary_rate, secondary_rate) >= self.strategy.min_rate_diff_e8
                && !execute_ok ==> resp@ == error_model(execution_failed_message()),
            abs_diff(primary_rate, secondary_rate) >= self.strategy.min_rate_diff_e8
                && execute_ok ==> resp@ == success_model(
                spec_profit(
                    request.amount_e8,
                    abs_diff(primary_rate, secondary_rate),
                    self.strategy.efficiency_percent,
                ) as u64,
                elapsed_ms,
                self.gas_optimizer.current_gas_price,
            ),
    {
        match evaluate(
            &self.strategy,
            primary_rate,
            secondary_rate,
            request.amount_e8,
            execute_ok,
        ) {
            Ok(profit) => success_response(profit, elapsed_ms, self.gas_optimizer.current_gas_price),
            Err(e) => {
                proof {
                    lemma_error_message_plain(&e);
                }
                error_response(e.message())
            },
        }
    }

    /// One request end to end as served: the start time is recorded, the
    /// two rates are fetched, the execution outcome is drawn, and the
    /// response is built. An unknown exchange yields exactly its error
    /// response; past the lookups, every outcome is a well-formed
    /// response whose success case carries the exact profit of some pair
    /// of observed rates.
    pub fn execute_funding_rate_arbitrage(&self, request: &ArbitrageRequest) -> (resp:
        ArbitrageResponse)
        requires
            self.wf(),
            request@.wf(),
        ensures
            resp@.wf(),
            !self.spec_supports(request@.primary_exchange) ==> resp@ == error_model(
                unsupported_message(request@.primary_exchange),
            ),
            self.spec_supports(request@.primary_exchange) && !self.spec_supports(
                request@.secondary_exchange,
            ) ==> resp@ == error_model(unsupported_message(request@.secondary_exchange)),
            self.spec_supports(request@.primary_exchange) && self.spec_supports(
                request@.secondary_exchange,
            ) ==> resp@ == error_model(below_threshold_message()) || resp@ == error_model(
                execution_failed_message(),
            ) || exists|ra: u64, rb: u64|
                ra <= MAX_RATE_E8 && rb <= MAX_RATE_E8 && abs_diff(ra, rb)
                    >= self.strategy.min_rate_diff_e8 && resp@ == success_model(
                    spec_profit(request.amount_e8, abs_diff(ra, rb), self.strategy.efficiency_percent) as u64,
                    resp@.execution_time_ms,
                    self.gas_optimizer.current_gas_price,
                ),
    {
        let start = clock::system_now();
        let primary_rate = match self.get_funding_rate(
            request.primary_exchange.as_slice(),
            request.symbol.as_slice(),
        ) {
            Ok(rate) => rate,
            Err(e) => {
                proof {
                    lemma_error_message_plain(&e);
                }
                return error_response(e.message());
            },
        };
        let secondary_rate = match self.get_funding_rate(
            request.secondary_exchange.as_slice(),
            request.symbol.as_slice(),
        ) {
            Ok(rate) => rate,
            Err(e) => {
                proof {
                    lemma_error_message_plain(&e);
                }
                return error_response(e.message());
            },
        };
        let execute_ok = rng::random::<u64>() % 100 < self.strategy.success_percent;
        let elapsed_ms = clock::elapsed_millis(&start);
        proof {
            lemma_profit_fits(
                request.amount_e8,
                abs_diff(primary_rate, secondary_rate),
                self.strategy.efficiency_percent,
            );
        }
        let resp = self.execute_with_rates(
            request,
            primary_rate,
            secondary_rate,
            execute_ok,
            elapsed_ms,
        );
        proof {
            if abs_diff(primary_rate, secondary_rate) >= self.strategy.min_rate_diff_e8
                && execute_ok {
                assert(resp@ == success_model(
                    spec_profit(
                        request.amount_e8,
                        abs_diff(primary_rate, secondary_rate),
                        self.strategy.efficiency_percent,
                    ) as u64,
                    resp@.execution_time_ms,
                    self.gas_optimizer.current_gas_price,
                ));
            }
        }
        resp
    }
}

/// The model of an error response: zero reported duration, no profit, no
/// gas, and the given diagnostic.
pub open spec fn error_model(msg: Seq<u8>) -> ResponseModel {
    ResponseModel {
        status: Status::Error,
        profit_e8: None,
        execution_time_ms: 0,
        gas_used: None,
        error_message: Some(msg),
    }
}

/// The model of a success response.
pub open spec fn success_model(profit_e8: u64, elapsed_ms: u64, gas: u64) -> ResponseModel {
    ResponseModel {
        status: Status::Success,
        profit_e8: Some(profit_e8),
        execution_time_ms: elapsed_ms,
        gas_used: Some(gas),
        error_message: None,
    }
}

/// Builds the error response for `message`.
pub fn error_response(message: Vec<u8>) -> (resp: ArbitrageResponse)
    ensures
        resp@ == error_model(message@),
{
    ArbitrageResponse {
        status: Status::Error,
        profit_e8: None,
        execution_time_ms: 0,
        gas_used: None,
        error_message: Some(message),
    }
}

/// Builds the success response for an executed opportunity.
pub fn success_response(profit_e8: u64, elapsed_ms: u64, gas: u64) -> (resp: ArbitrageResponse)
    ensures
        resp@ == success_model(profit_e8, elapsed_ms, gas),
{
    ArbitrageResponse {
        status: Status::Success,
        profit_e8: Some(profit_e8),
        execution_time_ms: elapsed_ms,
        gas_used: Some(gas),
        error_message: None,
    }
}

/// Under the global rate cap the profit of any amount fits in `u64`.
pub proof fn lemma_profit_fits(amount_e8: u64, diff_e8: u64, efficiency_percent: u64)
    requires
        diff_e8 <= MAX_RATE_E8,
        efficiency_percent <= 100,
    ensures
        spec_profit(amount_e8, diff_e8, efficiency_percent) <= u64::MAX,
{
    assert(amount_e8 * diff_e8 * efficiency_percent <= (u64::MAX as int) * (MAX_RATE_E8 as int)
        * 100) by (nonlinear_arith)
        requires
            diff_e8 <= MAX_RATE_E8,
            efficiency_percent <= 100,
            amount_e8 <= u64::MAX,
    ;
    assert((amount_e8 * diff_e8 * efficiency_percent) / (PROFIT_DIVISOR as int) <= ((u64::MAX
        as int) * (MAX_RATE_E8 as int) * 100) / (PROFIT_DIVISOR as int)) by {
        vstd::arithmetic::div_mod::lemma_div_is_ordered(
            amount_e8 * diff_e8 * efficiency_percent,
            (u64::MAX as int) * (MAX_RATE_E8 as int) * 100,
            PROFIT_DIVISOR as int,
        );
    }
}

/// The execution strategy's decision rule, with the simulated execution
/// outcome handed in: below the threshold nothing is attempted; at or
/// above it the attempt either fails or returns the exact profit.
pub fn evaluate(
    cfg: &StrategyConfig,
    rate_a: u64,
    rate_b: u64,
    amount_e8: u64,
    execute_ok: bool,
) -> (r: Result<u64, EngineError>)
    requires
        cfg.wf(),
        spec_profit(amount_e8, abs_diff(rate_a, rate_b), cfg.efficiency_percent) <= u64::MAX,
    ensures
        abs_diff(rate_a, rate_b) < cfg.min_rate_diff_e8 ==> r == Err::<u64, EngineError>(
            EngineError::BelowThreshold,
        ),
        abs_diff(rate_a, rate_b) >= cfg.min_rate_diff_e8 && !execute_ok ==> r == Err::<
            u64,
            EngineError,
        >(EngineError::ExecutionFailed),
        abs_diff(rate_a, rate_b) >= cfg.min_rate_diff_e8 && execute_ok ==> r == Ok::<
            u64,
            EngineError,
        >(spec_profit(amount_e8, abs_diff(rate_a, rate_b), cfg.efficiency_percent) as u64),
    {
    let diff: u64 = if rate_a >= rate_b {
        rate_a - rate_b
    } else {
        rate_b - rate_a
    };
    if diff < cfg.min_rate_diff_e8 {
        return Err(EngineError::BelowThreshold);
    }
    if !execute_ok {
        return Err(EngineError::ExecutionFailed);
    }
    proof {
        assert(amount_e8 * diff <= u64::MAX * u64::MAX) by (nonlinear_arith)
            requires
                amount_e8 <= u64::MAX,
                diff <= u64::MAX,
        ;
        assert((u64::MAX as int) * (u64::MAX as int) < u128::MAX);
    }
    let prod: u128 = (amount_e8 as u128) * (diff as u128);
    let scaled: u128 = prod * (cfg.efficiency_percent as u128);
    proof {
        lemma_fundamental_div_mod(
            amount_e8 * diff * cfg.efficiency_percent,
            PROFIT_DIVISOR as int,
        );
        assert(amount_e8 * diff * cfg.efficiency_percent <= (u64::MAX as int) * (PROFIT_DIVISOR
            as int) + PROFIT_DIVISOR) by {
            lemma_mul_inequality(
                (amount_e8 * diff * cfg.efficiency_percent) / (PROFIT_DIVISOR as int),
                u64::MAX as int,
                PROFIT_DIVISOR as int,
            );
        }
    }
    let profit128: u128 = scaled / (PROFIT_DIVISOR as u128);
    let profit: u64 = profit128 as u64;
    Ok(profit)
}

/// Byte-for-byte equality of two slices.
pub fn bytes_eq(a: &[u8], b: &[u8]) -> (r: bool)
    ensures
        r <==> a@ == b@,
{
    if a.len() != b.len() {
        proof {
            assert(a@.len() != b@.len());
        }
        return false;
    }
    let n = a.len();
    let mut k: usize = 0;
    while k < n
        invariant
            n == a@.len(),
            n == b@.len(),
            k <= n,
            forall|j: int| 0 <= j < k ==> a@[j] == b@[j],
        decreases n - k,
    {
        if a[k] != b[k] {
            return false;
        }
        k = k + 1;
    }
    proof {
        assert(a@ =~= b@);
    }
    true
}

} // verus!
