//! The wire codec: a strict JSON framing of requests and responses.
//!
//! One message is one JSON object with the fields in a fixed order and no
//! interior whitespace, exactly the shape the engine's own encoder emits.
//! Numbers are decimal, with at most eight fractional digits for the
//! fixed-point quantities; strings carry plain bytes only (no escapes).
//! The grammar is stated once, as spec-level parsers over byte sequences;
//! the executable decoder returns exactly what the spec parser denotes,
//! and the encoder's output is pinned byte for byte.

use vstd::prelude::*;
use vstd::string::StringSliceAdditionalSpecFns;
use crate::messages::{
    plain_byte, plain_bytes, ArbitrageRequest, ArbitrageResponse, RequestModel, ResponseModel,
    Status,
};

verus! {

/// `10^k`.
pub open spec fn pow10(k: nat) -> int
    decreases k,
{
    if k == 0 {
        1
    } else {
        10 * pow10((k - 1) as nat)
    }
}

pub proof fn lemma_pow10_8()
    ensures
        pow10(8) == 100_000_000,
{
    assert(pow10(0) == 1);
    assert(pow10(1) == 10);
    assert(pow10(2) == 100);
    assert(pow10(3) == 1000);
    assert(pow10(4) == 10000);
    assert(pow10(5) == 100000);
    assert(pow10(6) == 1000000);
    assert(pow10(7) == 10000000);
    assert(pow10(8) == 100000000);
}

/// True of an ASCII decimal digit.
pub open spec fn is_digit(b: u8) -> bool {
    0x30 <= b <= 0x39
}

/// The numeric value of a digit byte.
pub open spec fn digit_val(b: u8) -> int {
    b - 0x30
}

/// The decimal digits of `n`, most significant first, no leading zeros.
pub open spec fn dec_digits(n: int) -> Seq<u8>
    decreases n,
{
    if n < 10 {
        seq![(0x30 + n) as u8]
    } else {
        dec_digits(n / 10).push((0x30 + n % 10) as u8)
    }
}

/// Exactly `k` decimal digits of `n`, zero-padded on the left.
pub open spec fn padk(n: int, k: nat) -> Seq<u8>
    decreases k,
{
    if k == 0 {
        Seq::empty()
    } else {
        padk(n / 10, (k - 1) as nat).push((0x30 + n % 10) as u8)
    }
}

/// `s` with its trailing zero digits removed.
pub open spec fn trim_zeros(s: Seq<u8>) -> Seq<u8>
    decreases s.len(),
{
    if s.len() > 0 && s[s.len() - 1] == 0x30 {
        trim_zeros(s.drop_last())
    } else {
        s
    }
}

/// The canonical decimal rendering of a fixed-point value: the integer
/// part, and the fractional digits with trailing zeros trimmed when the
/// fraction is non-zero.
pub open spec fn enc_amount(v: u64) -> Seq<u8> {
    let ip = v as int / pow10(8);
    let f = v as int % pow10(8);
    if f == 0 {
        dec_digits(ip)
    } else {
        dec_digits(ip) + seq![46u8] + trim_zeros(padk(f, 8))
    }
}

/// Consumes `lit` from the front of `s`.
pub open spec fn sp_lit(s: Seq<u8>, lit: Seq<u8>) -> Option<Seq<u8>> {
    if lit.len() <= s.len() && s.take(lit.len() as int) == lit {
        Some(s.skip(lit.len() as int))
    } else {
        None
    }
}

/// Consumes a string body: plain bytes up to and including the closing
/// quote, yielding the content.
pub open spec fn sp_string(s: Seq<u8>) -> Option<(Seq<u8>, Seq<u8>)>
    decreases s.len(),
{
    if s.len() == 0 {
        None
    } else if s[0] == 0x22 {
        Some((Seq::empty(), s.skip(1)))
    } else if plain_byte(s[0]) {
        match sp_string(s.skip(1)) {
            Some((c, r)) => Some((seq![s[0]] + c, r)),
            None => None,
        }
    } else {
        None
    }
}

/// Consumes decimal digits into `acc`, failing past `u64::MAX`.
pub open spec fn sp_u64_rec(s: Seq<u8>, acc: int) -> Option<(int, Seq<u8>)>
    decreases s.len(),
{
    if s.len() > 0 && is_digit(s[0]) {
        if acc * 10 + digit_val(s[0]) > u64::MAX {
            None
        } else {
            sp_u64_rec(s.skip(1), acc * 10 + digit_val(s[0]))
        }
    } else {
        Some((acc, s))
    }
}

/// Consumes a non-empty run of decimal digits as a `u64`.
pub open spec fn sp_u64(s: Seq<u8>) -> Option<(u64, Seq<u8>)> {
    if s.len() > 0 && is_digit(s[0]) {
        match sp_u64_rec(s, 0) {
            Some((v, r)) => Some((v as u64, r)),
            None => None,
        }
    } else {
        None
    }
}

/// Consumes up to eight fractional digits, counting them in `k`,
/// accumulating their value in `acc`; a ninth digit is malformed.
pub open spec fn sp_frac_rec(s: Seq<u8>, k: int, acc: int) -> Option<(int, Seq<u8>)>
    decreases s.len(),
{
    if s.len() > 0 && is_digit(s[0]) {
        if k >= 8 {
            None
        } else {
            sp_frac_rec(s.skip(1), k + 1, acc * 10 + digit_val(s[0]))
        }
    } else {
        if k == 0 {
            None
        } else {
            Some((acc * pow10((8 - k) as nat), s))
        }
    }
}

/// Consumes a fractional part, scaled to `10^-8` units.
pub open spec fn sp_frac(s: Seq<u8>) -> Option<(int, Seq<u8>)> {
    sp_frac_rec(s, 0, 0)
}

/// Consumes a decimal number with an optional fraction as a fixed-point
/// value scaled by `10^8`, failing when it does not fit a `u64`.
pub open spec fn sp_amount(s: Seq<u8>) -> Option<(u64, Seq<u8>)> {
    match sp_u64(s) {
        None => None,
        Some((ip, r)) => if r.len() > 0 && r[0] == 46 {
            match sp_frac(r.skip(1)) {
                None => None,
                Some((f, r2)) => if ip * pow10(8) + f <= u64::MAX {
                    Some(((ip * pow10(8) + f) as u64, r2))
                } else {
                    None
                },
            }
        } else {
            if ip * pow10(8) <= u64::MAX {
                Some(((ip * pow10(8)) as u64, r))
            } else {
                None
            }
        },
    }
}

/// Consumes an optionally signed decimal integer in `i32` range.
pub open spec fn sp_i32(s: Seq<u8>) -> Option<(i32, Seq<u8>)> {
    if s.len() > 0 && s[0] == 45 {
        match sp_u64(s.skip(1)) {
            None => None,
            Some((v, r)) => if v <= 2147483648 {
                Some(((-(v as int)) as i32, r))
            } else {
                None
            },
        }
    } else {
        match sp_u64(s) {
            None => None,
            Some((v, r)) => if v <= 2147483647 {
                Some(((v as int) as i32, r))
            } else {
                None
            },
        }
    }
}

/// Consumes a quoted string: an opening quote, then a string body.
pub open spec fn sp_qstring(s: Seq<u8>) -> Option<(Seq<u8>, Seq<u8>)> {
    if s.len() > 0 && s[0] == 0x22 {
        sp_string(s.skip(1))
    } else {
        None
    }
}

// The fixed chunks of the two message shapes. Field names and punctuation
// are part of the wire contract.

pub open spec fn lit_req_head() -> Seq<u8> {
    "{\"strategy_id\":\"".spec_bytes()
}

pub open spec fn lit_req_symbol() -> Seq<u8> {
    ",\"symbol\":\"".spec_bytes()
}

pub open spec fn lit_req_primary() -> Seq<u8> {
    ",\"primary_exchange\":\"".spec_bytes()
}

pub open spec fn lit_req_secondary() -> Seq<u8> {
    ",\"secondary_exchange\":\"".spec_bytes()
}

pub open spec fn lit_req_amount() -> Seq<u8> {
    ",\"amount\":".spec_bytes()
}

pub open spec fn lit_req_priority() -> Seq<u8> {
    ",\"priority\":".spec_bytes()
}

pub open spec fn lit_req_timestamp() -> Seq<u8> {
    ",\"timestamp\":\"".spec_bytes()
}

pub open spec fn lit_resp_head() -> Seq<u8> {
    "{\"status\":\"".spec_bytes()
}

pub open spec fn lit_success() -> Seq<u8> {
    "success".spec_bytes()
}

pub open spec fn lit_error() -> Seq<u8> {
    "error".spec_bytes()
}

pub open spec fn lit_resp_profit() -> Seq<u8> {
    "\",\"profit\":".spec_bytes()
}

pub open spec fn lit_resp_exec() -> Seq<u8> {
    ",\"execution_time\":\"".spec_bytes()
}

pub open spec fn lit_resp_ms_gas() -> Seq<u8> {
    "ms\",\"gas_used\":".spec_bytes()
}

pub open spec fn lit_resp_errmsg() -> Seq<u8> {
    ",\"error_message\":".spec_bytes()
}

pub open spec fn lit_null() -> Seq<u8> {
    "null".spec_bytes()
}

pub open spec fn lit_close() -> Seq<u8> {
    "}".spec_bytes()
}

/// The denotation of request bytes: the decoded record, or nothing when
/// the bytes are not one well-formed request.
pub open spec fn sp_decode_request(s: Seq<u8>) -> Option<RequestModel> {
    match sp_lit(s, lit_req_head()) {
        None => None,
        Some(r0) => match sp_string(r0) {
            None => None,
            Some((strategy_id, r1)) => match sp_lit(r1, lit_req_symbol()) {
                None => None,
                Some(r2) => match sp_string(r2) {
                    None => None,
                    Some((symbol, r3)) => match sp_lit(r3, lit_req_primary()) {
                        None => None,
                        Some(r4) => match sp_string(r4) {
                            None => None,
                            Some((primary, r5)) => match sp_lit(r5, lit_req_secondary()) {
                                None => None,
                                Some(r6) => match sp_string(r6) {
                                    None => None,
                                    Some((secondary, r7)) => match sp_lit(r7, lit_req_amount()) {
                                        None => None,
                                        Some(r8) => match sp_amount(r8) {
                                            None => None,
                                            Some((amount, r9)) => match sp_lit(
                                                r9,
                                                lit_req_priority(),
                                            ) {
                                                None => None,
                                                Some(r10) => match sp_i32(r10) {
                                                    None => None,
                                                    Some((priority, r11)) => match sp_lit(
                                                        r11,
                                                        lit_req_timestamp(),
                                                    ) {
                                                        None => None,
                                                        Some(r12) => match sp_string(r12) {
                                                            None => None,
                                                            Some((timestamp, r13)) => match sp_lit(
                                                                r13,
                                                                lit_close(),
                                                            ) {
                                                                None => None,
                                                                Some(r14) => if r14.len() == 0
                                                                    && amount > 0 {
                                                                    Some(
                                                                        RequestModel {
                                                                            strategy_id,
                                                                            symbol,
                                                                            primary_exchange: primary,
                                                                            secondary_exchange: secondary,
                                                                            amount_e8: amount,
                                                                            priority,
                                                                            timestamp,
                                                                        },
                                                                    )
                                                                } else {
                                                                    None
                                                                },
                                                            },
                                                        },
                                                    },
                                                },
                                            },
                                        },
                                    },
                                },
                            },
                        },
                    },
                },
            },
        },
    }
}

/// The status bytes on the wire.
pub open spec fn status_bytes(st: Status) -> Seq<u8> {
    match st {
        Status::Success => lit_success(),
        Status::Error => lit_error(),
    }
}

/// The profit or gas field: a number, or `null` when absent.
pub open spec fn opt_u64_bytes(v: Option<u64>) -> Seq<u8> {
    match v {
        Some(g) => dec_digits(g as int),
        None => lit_null(),
    }
}

/// The profit field: a fixed-point number, or `null` when absent.
pub open spec fn opt_amount_bytes(v: Option<u64>) -> Seq<u8> {
    match v {
        Some(p) => enc_amount(p),
        None => lit_null(),
    }
}

/// The error-message field: a quoted string, or `null` when absent.
pub open spec fn opt_message_bytes(v: Option<Seq<u8>>) -> Seq<u8> {
    match v {
        Some(m) => seq![0x22u8] + m + seq![0x22u8],
        None => lit_null(),
    }
}

/// The canonical wire bytes of a response.
pub open spec fn sp_encode_response(m: ResponseModel) -> Seq<u8> {
    lit_resp_head() + status_bytes(m.status) + lit_resp_profit() + opt_amount_bytes(m.profit_e8)
        + lit_resp_exec() + dec_digits(m.execution_time_ms as int) + lit_resp_ms_gas()
        + opt_u64_bytes(m.gas_used) + lit_resp_errmsg() + opt_message_bytes(m.error_message)
        + lit_close()
}

/// Consumes the status word.
pub open spec fn sp_status_field(s: Seq<u8>) -> Option<(Status, Seq<u8>)> {
    match sp_lit(s, lit_success()) {
        Some(r) => Some((Status::Success, r)),
        None => match sp_lit(s, lit_error()) {
            Some(r) => Some((Status::Error, r)),
            None => None,
        },
    }
}

/// Consumes a fixed-point number or `null`.
pub open spec fn sp_opt_amount_field(s: Seq<u8>) -> Option<(Option<u64>, Seq<u8>)> {
    match sp_lit(s, lit_null()) {
        Some(r) => Some((None, r)),
        None => match sp_amount(s) {
            Some((p, r)) => Some((Some(p), r)),
            None => None,
        },
    }
}

/// Consumes an unsigned number or `null`.
pub open spec fn sp_opt_u64_field(s: Seq<u8>) -> Option<(Option<u64>, Seq<u8>)> {
    match sp_lit(s, lit_null()) {
        Some(r) => Some((None, r)),
        None => match sp_u64(s) {
            Some((g, r)) => Some((Some(g), r)),
            None => None,
        },
    }
}

/// Consumes a quoted string or `null`.
pub open spec fn sp_opt_message_field(s: Seq<u8>) -> Option<(Option<Seq<u8>>, Seq<u8>)> {
    match sp_lit(s, lit_null()) {
        Some(r) => Some((None, r)),
        None => match sp_qstring(s) {
            Some((c, r)) => Some((Some(c), r)),
            None => None,
        },
    }
}

/// The last stage of response decoding: the closing brace, the end of
/// input, and the status/field consistency check.
pub open spec fn sp_finish_response(
    status: Status,
    profit: Option<u64>,
    elapsed: u64,
    gas: Option<u64>,
    message: Option<Seq<u8>>,
    r: Seq<u8>,
) -> Option<ResponseModel> {
    match sp_lit(r, lit_close()) {
        None => None,
        Some(rf) => {
            let m = ResponseModel {
                status,
                profit_e8: profit,
                execution_time_ms: elapsed,
                gas_used: gas,
                error_message: message,
            };
            if rf.len() == 0 && m.wf() {
                Some(m)
            } else {
                None
            }
        },
    }
}

/// The denotation of response bytes: the decoded record, or nothing. A
/// record whose populated fields disagree with its status, or whose
/// message is not plain, is rejected.
pub open spec fn sp_decode_response(s: Seq<u8>) -> Option<ResponseModel> {
    match sp_lit(s, lit_resp_head()) {
        None => None,
        Some(r0) => match sp_status_field(r0) {
            None => None,
            Some((status, r1)) => match sp_lit(r1, lit_resp_profit()) {
                None => None,
                Some(r2) => match sp_opt_amount_field(r2) {
                    None => None,
                    Some((profit, r3)) => match sp_lit(r3, lit_resp_exec()) {
                        None => None,
                        Some(r4) => match sp_u64(r4) {
                            None => None,
                            Some((elapsed, r5)) => match sp_lit(r5, lit_resp_ms_gas()) {
                                None => None,
                                Some(r6) => match sp_opt_u64_field(r6) {
                                    None => None,
                                    Some((gas, r7)) => match sp_lit(r7, lit_resp_errmsg()) {
                                        None => None,
                                        Some(r8) => match sp_opt_message_field(r8) {
                                            None => None,
                                            Some((message, r9)) => sp_finish_response(
                                                status,
                                                profit,
                                                elapsed,
                                                gas,
                                                message,
                                                r9,
                                            ),
                                        },
                                    },
                                },
                            },
                        },
                    },
                },
            },
        },
    }
}

/// A malformed inbound payload.
#[derive(Debug, PartialEq, Eq)]
pub struct DecodeError;

/// Message of a decode failure.
pub open spec fn decode_error_message() -> Seq<u8> {
    "decode error: malformed arbitrage request".spec_bytes()
}

impl DecodeError {
    /// Renders the diagnostic text.
    pub fn message(&self) -> (out: Vec<u8>)
        ensures
            out@ == decode_error_message(),
    {
        vstd::string::StrSliceExecFns::as_bytes_vec("decode error: malformed arbitrage request")
    }
}

/// The decode-failure diagnostic contains only plain bytes.
pub proof fn lemma_decode_message_plain()
    ensures
        plain_bytes(decode_error_message()),
{
    broadcast use vstd::string::is_ascii_spec_bytes;

    reveal_strlit("decode error: malformed arbitrage request");
    assert(vstd::string::is_ascii("decode error: malformed arbitrage request"));
}

/// True when `b` may stand unescaped inside a JSON string.
fn is_plain_byte(b: u8) -> (r: bool)
    ensures
        r == plain_byte(b),
{
    b >= 0x20 && b != 0x22 && b != 0x5c
}

/// Consumes `lit` at `i`, returning the index past it.
fn p_lit(s: &[u8], i: usize, lit: &str) -> (r: Option<usize>)
    requires
        i <= s@.len(),
    ensures
        r matches Some(j) ==> i <= j <= s@.len() && sp_lit(s@.skip(i as int), lit.spec_bytes())
            == Some(s@.skip(j as int)),
        r is None ==> sp_lit(s@.skip(i as int), lit.spec_bytes()) is None,
{
    let lb = lit.as_bytes();
    let n = lb.len();
    if s.len() - i < n {
        proof {
            assert(s@.skip(i as int).len() < lb@.len());
        }
        return None;
    }
    let mut k: usize = 0;
    while k < n
        invariant
            i + n <= s@.len(),
            s@.len() <= usize::MAX,
            k <= n,
            n == lb@.len(),
            lb@ == lit.spec_bytes(),
            forall|x: int| 0 <= x < k ==> s@[i + x] == lb@[x],
        decreases n - k,
    {
        if s[i + k] != lb[k] {
            proof {
                let t = s@.skip(i as int);
                assert(t.take(n as int)[k as int] == s@[i + k]);
                assert(t.take(n as int) != lb@);
            }
            return None;
        }
        k = k + 1;
    }
    proof {
        let t = s@.skip(i as int);
        assert(t.take(n as int) =~= lb@);
        assert(t.skip(n as int) =~= s@.skip((i + n) as int));
    }
    Some(i + n)
}

/// `sp_string` denotes the scan to the closing quote.
proof fn lemma_sp_string_scan_some(t: Seq<u8>, e: int)
    requires
        0 <= e < t.len(),
        forall|x: int| 0 <= x < e ==> plain_byte(#[trigger] t[x]),
        t[e] == 0x22,
    ensures
        sp_string(t) == Some((t.take(e), t.skip(e + 1))),
    decreases e,
{
    if e == 0 {
        assert(t.take(0) =~= Seq::<u8>::empty());
    } else {
        lemma_sp_string_scan_some(t.skip(1), e - 1);
        assert(t.skip(1).take(e - 1) =~= t.take(e).skip(1));
        assert(seq![t[0]] + t.skip(1).take(e - 1) =~= t.take(e));
        assert(t.skip(1).skip(e - 1 + 1) =~= t.skip(e + 1));
    }
}

/// A scan that runs out of input or hits a non-plain, non-quote byte
/// denotes a failure.
proof fn lemma_sp_string_scan_none(t: Seq<u8>, e: int)
    requires
        0 <= e <= t.len(),
        forall|x: int| 0 <= x < e ==> plain_byte(#[trigger] t[x]),
        e == t.len() || (t[e] != 0x22 && !plain_byte(t[e])),
    ensures
        sp_string(t) is None,
    decreases e,
{
    if e == 0 {
    } else {
        lemma_sp_string_scan_none(t.skip(1), e - 1);
    }
}

/// Consumes a string body at `i`, yielding its content.
fn p_string(s: &[u8], i: usize) -> (r: Option<(Vec<u8>, usize)>)
    requires
        i <= s@.len(),
    ensures
        r matches Some((c, j)) ==> i < j <= s@.len() && sp_string(s@.skip(i as int)) == Some(
            (c@, s@.skip(j as int)),
        ) && plain_bytes(c@),
        r is None ==> sp_string(s@.skip(i as int)) is None,
{
    let n = s.len();
    let mut k: usize = i;
    while k < n && s[k] != 0x22 && is_plain_byte(s[k])
        invariant
            i <= k <= n,
            n == s@.len(),
            forall|x: int| i <= x < k ==> plain_byte(#[trigger] s@[x]),
        decreases n - k,
    {
        k = k + 1;
    }
    proof {
        let t = s@.skip(i as int);
        assert forall|x: int| 0 <= x < k - i implies plain_byte(#[trigger] t[x]) by {
            assert(t[x] == s@[i + x]);
        }
    }
    if k < n && s[k] == 0x22 {
        let content = vstd::slice::slice_to_vec(&s[i..k]);
        proof {
            let t = s@.skip(i as int);
            lemma_sp_string_scan_some(t, k - i);
            assert(t.take(k - i) =~= s@.subrange(i as int, k as int));
            assert(t.skip(k - i + 1) =~= s@.skip((k + 1) as int));
        }
        Some((content, k + 1))
    } else {
        proof {
            let t = s@.skip(i as int);
            if k < n {
                assert(t[k - i] == s@[k as int]);
            }
            lemma_sp_string_scan_none(t, k - i);
        }
        None
    }
}

/// Consumes a digit run at `i` as a `u64`.
fn p_u64(s: &[u8], i: usize) -> (r: Option<(u64, usize)>)
    requires
        i <= s@.len(),
    ensures
        r matches Some((v, j)) ==> i < j <= s@.len() && sp_u64(s@.skip(i as int)) == Some(
            (v, s@.skip(j as int)),
        ),
        r is None ==> sp_u64(s@.skip(i as int)) is None,
{
    let n = s.len();
    if i == n || !(0x30 <= s[i] && s[i] <= 0x39) {
        return None;
    }
    let mut k: usize = i;
    let mut acc: u64 = 0;
    while k < n && 0x30 <= s[k] && s[k] <= 0x39
        invariant
            i <= k <= n,
            n == s@.len(),
            sp_u64_rec(s@.skip(i as int), 0) == sp_u64_rec(s@.skip(k as int), acc as int),
            k > i || acc == 0,
        decreases n - k,
    {
        let d: u64 = (s[k] - 0x30) as u64;
        proof {
            vstd::arithmetic::div_mod::lemma_fundamental_div_mod((u64::MAX - d) as int, 10);
        }
        if acc > (u64::MAX - d) / 10 {
            proof {
                let t = s@.skip(k as int);
                assert(t.len() > 0 && is_digit(t[0]));
                assert(acc * 10 + digit_val(t[0]) > u64::MAX);
            }
            return None;
        }
        proof {
            let t = s@.skip(k as int);
            assert(t.len() > 0 && is_digit(t[0]));
            assert(acc * 10 + digit_val(t[0]) <= u64::MAX);
            assert(t.skip(1) =~= s@.skip((k + 1) as int));
        }
        acc = acc * 10 + d;
        k = k + 1;
    }
    proof {
        let t = s@.skip(k as int);
        if t.len() > 0 {
            assert(t[0] == s@[k as int]);
        }
        assert(sp_u64_rec(t, acc as int) == Some((acc as int, t)));
        assert(s@.skip(i as int).len() > 0 && is_digit(s@.skip(i as int)[0]));
    }
    Some((acc, k))
}

/// Consumes a fractional-digit run at `i`, scaled to `10^-8` units.
fn p_frac(s: &[u8], i: usize) -> (r: Option<(u64, usize)>)
    requires
        i <= s@.len(),
    ensures
        r matches Some((v, j)) ==> i < j <= s@.len() && sp_frac(s@.skip(i as int)) == Some(
            (v as int, s@.skip(j as int)),
        ) && v < 100_000_000,
        r is None ==> sp_frac(s@.skip(i as int)) is None,
{
    let n = s.len();
    let mut k: usize = i;
    let mut cnt: usize = 0;
    let mut acc: u64 = 0;
    proof {
        lemma_pow10_8();
    }
    while k < n && 0x30 <= s[k] && s[k] <= 0x39 && cnt < 8
        invariant
            i <= k <= n,
            n == s@.len(),
            cnt == k - i,
            cnt <= 8,
            acc < pow10(cnt as nat),
            pow10(8) == 100_000_000,
            sp_frac_rec(s@.skip(i as int), 0, 0) == sp_frac_rec(
                s@.skip(k as int),
                cnt as int,
                acc as int,
            ),
        decreases n - k,
    {
        let d: u64 = (s[k] - 0x30) as u64;
        proof {
            let t = s@.skip(k as int);
            assert(t.len() > 0 && is_digit(t[0]));
            assert(t.skip(1) =~= s@.skip((k + 1) as int));
            lemma_pow10_le((cnt + 1) as nat, 8);
            assert(acc * 10 + digit_val(t[0]) < pow10((cnt + 1) as nat)) by {
                assert(acc * 10 <= (pow10(cnt as nat) - 1) * 10) by (nonlinear_arith)
                    requires
                        acc <= pow10(cnt as nat) - 1,
                ;
            }
        }
        acc = acc * 10 + d;
        cnt = cnt + 1;
        k = k + 1;
    }
    if cnt == 0 {
        proof {
            let t = s@.skip(i as int);
            if t.len() > 0 {
                assert(t[0] == s@[i as int]);
            }
        }
        return None;
    }
    if k < n && 0x30 <= s[k] && s[k] <= 0x39 {
        proof {
            let t = s@.skip(k as int);
            assert(t.len() > 0 && is_digit(t[0]));
            assert(cnt == 8);
        }
        return None;
    }
    let scale = pow10_u64(8 - cnt);
    proof {
        let t = s@.skip(k as int);
        if t.len() > 0 {
            assert(t[0] == s@[k as int]);
        }
        assert(sp_frac_rec(t, cnt as int, acc as int) == Some(
            (acc as int * pow10((8 - cnt) as nat), t),
        ));
        lemma_pow10_add(cnt as nat, (8 - cnt) as nat);
        assert(acc as int * pow10((8 - cnt) as nat) < pow10(8)) by {
            vstd::arithmetic::mul::lemma_mul_inequality(
                acc as int,
                pow10(cnt as nat) - 1,
                pow10((8 - cnt) as nat),
            );
            assert((pow10(cnt as nat) - 1) * pow10((8 - cnt) as nat) == pow10(8) - pow10(
                (8 - cnt) as nat,
            )) by (nonlinear_arith)
                requires
                    pow10(cnt as nat) * pow10((8 - cnt) as nat) == pow10(8),
            ;
            lemma_pow10_pos((8 - cnt) as nat);
        }
    }
    Some((acc * scale, k))
}

/// `10^a <= 10^b` for `a <= b`.
pub proof fn lemma_pow10_le(a: nat, b: nat)
    requires
        a <= b,
    ensures
        pow10(a) <= pow10(b),
    decreases b,
{
    if a < b {
        lemma_pow10_le(a, (b - 1) as nat);
        lemma_pow10_pos((b - 1) as nat);
    }
}

/// `10^k` is positive.
pub proof fn lemma_pow10_pos(k: nat)
    ensures
        pow10(k) >= 1,
    decreases k,
{
    if k > 0 {
        lemma_pow10_pos((k - 1) as nat);
    }
}

/// `10^a * 10^b == 10^(a+b)`.
pub proof fn lemma_pow10_add(a: nat, b: nat)
    ensures
        pow10(a) * pow10(b) == pow10(a + b),
    decreases a,
{
    if a == 0 {
        assert(pow10(0) * pow10(b) == pow10(b));
    } else {
        lemma_pow10_add((a - 1) as nat, b);
        assert(pow10(a) * pow10(b) == 10 * (pow10((a - 1) as nat) * pow10(b)))
            by (nonlinear_arith)
            requires
                pow10(a) == 10 * pow10((a - 1) as nat),
        ;
    }
}

/// `10^k` for `k <= 8`.
fn pow10_u64(k: usize) -> (r: u64)
    requires
        k <= 8,
    ensures
        r == pow10(k as nat),
{
    proof {
        lemma_pow10_8();
        lemma_pow10_le(k as nat, 8);
        lemma_pow10_pos(k as nat);
    }
    let mut p: u64 = 1;
    let mut j: usize = 0;
    while j < k
        invariant
            j <= k <= 8,
            p == pow10(j as nat),
            pow10(8) == 100_000_000,
        decreases k - j,
    {
        proof {
            lemma_pow10_le((j + 1) as nat, 8);
        }
        p = p * 10;
        j = j + 1;
    }
    p
}

/// Consumes a fixed-point number at `i`.
fn p_amount(s: &[u8], i: usize) -> (r: Option<(u64, usize)>)
    requires
        i <= s@.len(),
    ensures
        r matches Some((v, j)) ==> i < j <= s@.len() && sp_amount(s@.skip(i as int)) == Some(
            (v, s@.skip(j as int)),
        ),
        r is None ==> sp_amount(s@.skip(i as int)) is None,
{
    proof {
        lemma_pow10_8();
    }
    let (ip, j) = match p_u64(s, i) {
        Some(x) => x,
        None => {
            return None;
        },
    };
    if j < s.len() && s[j] == 46 {
        proof {
            let r = s@.skip(j as int);
            assert(r[0] == s@[j as int]);
            assert(r.skip(1) =~= s@.skip((j + 1) as int));
        }
        let (f, j2) = match p_frac(s, j + 1) {
            Some(x) => x,
            None => {
                return None;
            },
        };
        let total: u128 = (ip as u128) * (crate::FIXED_POINT_SCALE as u128) + (f as u128);
        if total > u64::MAX as u128 {
            return None;
        }
        Some((total as u64, j2))
    } else {
        proof {
            let r = s@.skip(j as int);
            if r.len() > 0 {
                assert(r[0] == s@[j as int]);
            }
        }
        if ip > u64::MAX / crate::FIXED_POINT_SCALE {
            proof {
                vstd::arithmetic::div_mod::lemma_fundamental_div_mod(u64::MAX as int, 100_000_000);
            }
            return None;
        }
        proof {
            vstd::arithmetic::div_mod::lemma_fundamental_div_mod(u64::MAX as int, 100_000_000);
            assert(ip * 100_000_000 <= (u64::MAX / 100_000_000u64) * 100_000_000) by {
                vstd::arithmetic::mul::lemma_mul_inequality(
                    ip as int,
                    (u64::MAX / 100_000_000u64) as int,
                    100_000_000,
                );
            }
        }
        Some((ip * crate::FIXED_POINT_SCALE, j))
    }
}

/// Consumes a signed 32-bit integer at `i`.
fn p_i32(s: &[u8], i: usize) -> (r: Option<(i32, usize)>)
    requires
        i <= s@.len(),
    ensures
        r matches Some((v, j)) ==> i < j <= s@.len() && sp_i32(s@.skip(i as int)) == Some(
            (v, s@.skip(j as int)),
        ),
        r is None ==> sp_i32(s@.skip(i as int)) is None,
{
    let n = s.len();
    if i < n && s[i] == 45 {
        proof {
            let t = s@.skip(i as int);
            assert(t[0] == s@[i as int]);
            assert(t.skip(1) =~= s@.skip((i + 1) as int));
        }
        let (v, j) = match p_u64(s, i + 1) {
            Some(x) => x,
            None => {
                return None;
            },
        };
        if v > 2147483648 {
            return None;
        }
        let out: i32 = if v == 2147483648 {
            i32::MIN
        } else {
            -(v as i32)
        };
        Some((out, j))
    } else {
        proof {
            let t = s@.skip(i as int);
            if t.len() > 0 {
                assert(t[0] == s@[i as int]);
            }
        }
        let (v, j) = match p_u64(s, i) {
            Some(x) => x,
            None => {
                return None;
            },
        };
        if v > 2147483647 {
            return None;
        }
        Some((v as i32, j))
    }
}

/// Decodes one request message. Succeeds exactly on the byte strings the
/// wire grammar accepts, and the decoded record is well formed.
pub fn decode_request(s: &[u8]) -> (r: Result<ArbitrageRequest, DecodeError>)
    ensures
        r matches Ok(req) ==> sp_decode_request(s@) == Some(req@) && req@.wf(),
        r is Err ==> sp_decode_request(s@) is None,
{
    proof {
        assert(s@.skip(0) =~= s@);
    }
    let j0 = match p_lit(s, 0, "{\"strategy_id\":\"") {
        Some(j) => j,
        None => {
            return Err(DecodeError);
        },
    };
    let (strategy_id, j1) = match p_string(s, j0) {
        Some(x) => x,
        None => {
            return Err(DecodeError);
        },
    };
    let j2 = match p_lit(s, j1, ",\"symbol\":\"") {
        Some(j) => j,
        None => {
            return Err(DecodeError);
        },
    };
    let (symbol, j3) = match p_string(s, j2) {
        Some(x) => x,
        None => {
            return Err(DecodeError);
        },
    };
    let j4 = match p_lit(s, j3, ",\"primary_exchange\":\"") {
        Some(j) => j,
        None => {
            return Err(DecodeError);
        },
    };
    let (primary_exchange, j5) = match p_string(s, j4) {
        Some(x) => x,
        None => {
            return Err(DecodeError);
        },
    };
    let j6 = match p_lit(s, j5, ",\"secondary_exchange\":\"") {
        Some(j) => j,
        None => {
            return Err(DecodeError);
        },
    };
    let (secondary_exchange, j7) = match p_string(s, j6) {
        Some(x) => x,
        None => {
            return Err(DecodeError);
        },
    };
    let j8 = match p_lit(s, j7, ",\"amount\":") {
        Some(j) => j,
        None => {
            return Err(DecodeError);
        },
    };
    let (amount_e8, j9) = match p_amount(s, j8) {
        Some(x) => x,
        None => {
            return Err(DecodeError);
        },
    };
    let j10 = match p_lit(s, j9, ",\"priority\":") {
        Some(j) => j,
        None => {
            return Err(DecodeError);
        },
    };
    let (priority, j11) = match p_i32(s, j10) {
        Some(x) => x,
        None => {
            return Err(DecodeError);
        },
    };
    let j12 = match p_lit(s, j11, ",\"timestamp\":\"") {
        Some(j) => j,
        None => {
            return Err(DecodeError);
        },
    };
    let (timestamp, j13) = match p_string(s, j12) {
        Some(x) => x,
        None => {
            return Err(DecodeError);
        },
    };
    let j14 = match p_lit(s, j13, "}") {
        Some(j) => j,
        None => {
            return Err(DecodeError);
        },
    };
    if j14 != s.len() {
        proof {
            assert(s@.skip(j14 as int).len() != 0);
        }
        return Err(DecodeError);
    }
    if amount_e8 == 0 {
        return Err(DecodeError);
    }
    Ok(
        ArbitrageRequest {
            strategy_id,
            symbol,
            primary_exchange,
            secondary_exchange,
            amount_e8,
            priority,
            timestamp,
        },
    )
}

/// Decodes one response message. Succeeds exactly on the byte strings the
/// wire grammar accepts, and the decoded record is well formed.
#[verifier::rlimit(80)]
pub fn decode_response(s: &[u8]) -> (r: Result<ArbitrageResponse, DecodeError>)
    ensures
        r matches Ok(resp) ==> sp_decode_response(s@) == Some(resp@) && resp@.wf(),
        r is Err ==> sp_decode_response(s@) is None,
{
    proof {
        assert(s@.skip(0) =~= s@);
    }
    let j0 = match p_lit(s, 0, "{\"status\":\"") {
        Some(j) => j,
        None => {
            return Err(DecodeError);
        },
    };
    let (status, j1) = match p_lit(s, j0, "success") {
        Some(j) => (Status::Success, j),
        None => match p_lit(s, j0, "error") {
            Some(j) => (Status::Error, j),
            None => {
                return Err(DecodeError);
            },
        },
    };
    let j2 = match p_lit(s, j1, "\",\"profit\":") {
        Some(j) => j,
        None => {
            return Err(DecodeError);
        },
    };
    let (profit_e8, j3) = match p_lit(s, j2, "null") {
        Some(j) => (None, j),
        None => match p_amount(s, j2) {
            Some((p, j)) => (Some(p), j),
            None => {
                return Err(DecodeError);
            },
        },
    };
    let j4 = match p_lit(s, j3, ",\"execution_time\":\"") {
        Some(j) => j,
        None => {
            return Err(DecodeError);
        },
    };
    let (execution_time_ms, j5) = match p_u64(s, j4) {
        Some(x) => x,
        None => {
            return Err(DecodeError);
        },
    };
    let j6 = match p_lit(s, j5, "ms\",\"gas_used\":") {
        Some(j) => j,
        None => {
            return Err(DecodeError);
        },
    };
    let (gas_used, j7) = match p_lit(s, j6, "null") {
        Some(j) => (None, j),
        None => match p_u64(s, j6) {
            Some((g, j)) => (Some(g), j),
            None => {
                return Err(DecodeError);
            },
        },
    };
    let j8 = match p_lit(s, j7, ",\"error_message\":") {
        Some(j) => j,
        None => {
            return Err(DecodeError);
        },
    };
    let (error_message, j9) = match p_lit(s, j8, "null") {
        Some(j) => (None, j),
        None => {
            if j8 < s.len() && s[j8] == 0x22 {
                proof {
                    let t = s@.skip(j8 as int);
                    assert(t[0] == s@[j8 as int]);
                    assert(t.skip(1) =~= s@.skip((j8 + 1) as int));
                }
                match p_string(s, j8 + 1) {
                    Some((c, j)) => (Some(c), j),
                    None => {
                        return Err(DecodeError);
                    },
                }
            } else {
                proof {
                    let t = s@.skip(j8 as int);
                    if t.len() > 0 {
                        assert(t[0] == s@[j8 as int]);
                    }
                }
                return Err(DecodeError);
            }
        },
    };
    let j10 = match p_lit(s, j9, "}") {
        Some(j) => j,
        None => {
            return Err(DecodeError);
        },
    };
    if j10 != s.len() {
        proof {
            assert(s@.skip(j10 as int).len() != 0);
        }
        return Err(DecodeError);
    }
    let resp = ArbitrageResponse { status, profit_e8, execution_time_ms, gas_used, error_message };
    let ok_profit = match resp.profit_e8 {
        Some(_) => resp.status == Status::Success,
        None => resp.status != Status::Success,
    };
    let ok_gas = match resp.gas_used {
        Some(_) => resp.status == Status::Success,
        None => resp.status != Status::Success,
    };
    let ok_msg = match resp.error_message {
        Some(_) => resp.status == Status::Error,
        None => resp.status != Status::Error,
    };
    if ok_profit && ok_gas && ok_msg {
        Ok(resp)
    } else {
        Err(DecodeError)
    }
}

/// Appends the decimal digits of `n`.
fn emit_u64(out: &mut Vec<u8>, n: u64)
    ensures
        final(out)@ == old(out)@ + dec_digits(n as int),
    decreases n,
{
    if n < 10 {
        out.push(0x30 + n as u8);
        proof {
            assert(out@ =~= old(out)@ + dec_digits(n as int));
        }
    } else {
        emit_u64(out, n / 10);
        out.push(0x30 + (n % 10) as u8);
        proof {
            assert(out@ =~= old(out)@ + dec_digits(n as int));
        }
    }
}

/// Appends exactly `k` zero-padded decimal digits of `f`.
fn emit_padk(out: &mut Vec<u8>, f: u64, k: usize)
    requires
        k <= 8,
        f < pow10(k as nat),
    ensures
        final(out)@ == old(out)@ + padk(f as int, k as nat),
    decreases k,
{
    if k == 0 {
        proof {
            assert(out@ =~= old(out)@ + padk(f as int, 0));
        }
    } else {
        proof {
            assert(f / 10 < pow10((k - 1) as nat)) by {
                assert(pow10(k as nat) == 10 * pow10((k - 1) as nat));
            }
        }
        emit_padk(out, f / 10, k - 1);
        out.push(0x30 + (f % 10) as u8);
        proof {
            assert(out@ =~= old(out)@ + padk(f as int, k as nat));
        }
    }
}

/// Appends the canonical decimal rendering of the fixed-point value `v`.
fn emit_amount(out: &mut Vec<u8>, v: u64)
    ensures
        final(out)@ == old(out)@ + enc_amount(v),
{
    proof {
        lemma_pow10_8();
    }
    let ip = v / crate::FIXED_POINT_SCALE;
    let f = v % crate::FIXED_POINT_SCALE;
    emit_u64(out, ip);
    if f > 0 {
        out.push(46);
        let mut fr: u64 = f;
        let mut digits: usize = 8;
        while fr % 10 == 0
            invariant
                1 <= digits <= 8,
                fr > 0,
                fr < pow10(digits as nat),
                trim_zeros(padk(f as int, 8)) == trim_zeros(padk(fr as int, digits as nat)),
            decreases digits,
        {
            proof {
                if digits == 1 {
                    assert(pow10(0) == 1);
                    assert(pow10(1) == 10 * pow10(0));
                    assert(fr == 0);
                }
                assert(padk(fr as int, digits as nat).last() == (0x30 + fr as int % 10) as u8);
                assert(padk(fr as int, digits as nat).drop_last() =~= padk(
                    (fr / 10) as int,
                    (digits - 1) as nat,
                ));
                assert(pow10(digits as nat) == 10 * pow10((digits - 1) as nat));
            }
            fr = fr / 10;
            digits = digits - 1;
        }
        proof {
            assert(padk(fr as int, digits as nat).last() == (0x30 + fr as int % 10) as u8);
            assert(trim_zeros(padk(fr as int, digits as nat)) == padk(fr as int, digits as nat));
        }
        emit_padk(out, fr, digits);
        proof {
            assert(out@ =~= old(out)@ + enc_amount(v));
        }
    } else {
        proof {
            assert(out@ =~= old(out)@ + enc_amount(v));
        }
    }
}

/// Encodes a response onto the wire, byte for byte as the grammar states.
pub fn encode_response(resp: &ArbitrageResponse) -> (out: Vec<u8>)
    ensures
        out@ == sp_encode_response(resp@),
{
    let mut out: Vec<u8> = Vec::new();
    out.extend_from_slice("{\"status\":\"".as_bytes());
    match resp.status {
        Status::Success => out.extend_from_slice("success".as_bytes()),
        Status::Error => out.extend_from_slice("error".as_bytes()),
    }
    out.extend_from_slice("\",\"profit\":".as_bytes());
    match &resp.profit_e8 {
        Some(p) => emit_amount(&mut out, *p),
        None => out.extend_from_slice("null".as_bytes()),
    }
    out.extend_from_slice(",\"execution_time\":\"".as_bytes());
    emit_u64(&mut out, resp.execution_time_ms);
    out.extend_from_slice("ms\",\"gas_used\":".as_bytes());
    match &resp.gas_used {
        Some(g) => emit_u64(&mut out, *g),
        None => out.extend_from_slice("null".as_bytes()),
    }
    out.extend_from_slice(",\"error_message\":".as_bytes());
    match &resp.error_message {
        Some(m) => {
            out.push(0x22);
            out.extend_from_slice(m.as_slice());
            out.push(0x22);
        },
        None => out.extend_from_slice("null".as_bytes()),
    }
    out.extend_from_slice("}".as_bytes());
    proof {
        assert(out@ =~= sp_encode_response(resp@));
    }
    out
}


// ---------------------------------------------------------------------
// Round-trip laws: decoding a canonical encoding recovers the record.
// ---------------------------------------------------------------------

/// Consuming a literal off its own concatenation leaves the tail.
proof fn lemma_sp_lit_pass(lit: Seq<u8>, rest: Seq<u8>)
    ensures
        sp_lit(lit + rest, lit) == Some(rest),
{
    assert((lit + rest).take(lit.len() as int) =~= lit);
    assert((lit + rest).skip(lit.len() as int) =~= rest);
}

/// A literal whose first byte disagrees does not match.
proof fn lemma_sp_lit_fail_first(s: Seq<u8>, lit: Seq<u8>)
    requires
        lit.len() > 0,
        s.len() >= lit.len() ==> s[0] != lit[0],
    ensures
        sp_lit(s, lit) is None,
{
    if lit.len() <= s.len() {
        assert(s.take(lit.len() as int)[0] == s[0]);
    }
}

/// The decimal rendering is non-empty and all digits.
proof fn lemma_dec_digits(n: int)
    requires
        n >= 0,
    ensures
        dec_digits(n).len() >= 1,
        forall|i: int| 0 <= i < dec_digits(n).len() ==> is_digit(#[trigger] dec_digits(n)[i]),
    decreases n,
{
    if n >= 10 {
        lemma_dec_digits(n / 10);
    }
}

/// `padk` yields exactly `k` digits.
proof fn lemma_padk_len(f: int, k: nat)
    ensures
        padk(f, k).len() == k,
    decreases k,
{
    if k > 0 {
        lemma_padk_len(f / 10, (k - 1) as nat);
    }
}

/// Parsing digits off `dec_digits(n)` continues into the tail with the
/// accumulator advanced by `n`.
proof fn lemma_u64_chain(n: int, acc: int, rest: Seq<u8>)
    requires
        0 <= n,
        0 <= acc,
        acc * pow10(dec_digits(n).len() as nat) + n <= u64::MAX,
    ensures
        sp_u64_rec(dec_digits(n) + rest, acc) == sp_u64_rec(
            rest,
            acc * pow10(dec_digits(n).len() as nat) + n,
        ),
    decreases n,
{
    let s = dec_digits(n) + rest;
    if n < 10 {
        assert(dec_digits(n) =~= seq![(0x30 + n) as u8]);
        assert(s[0] == (0x30 + n) as u8);
        assert(is_digit(s[0]) && digit_val(s[0]) == n);
        assert(pow10(1) == 10 * pow10(0));
        assert(acc * 10 + n <= u64::MAX);
        assert(s.skip(1) =~= rest);
    } else {
        let d = (0x30 + n % 10) as u8;
        let len1 = dec_digits(n / 10).len();
        assert(dec_digits(n) =~= dec_digits(n / 10).push(d));
        assert(s =~= dec_digits(n / 10) + (seq![d] + rest));
        assert(dec_digits(n).len() == len1 + 1);
        vstd::arithmetic::div_mod::lemma_fundamental_div_mod(n, 10);
        assert(pow10((len1 + 1) as nat) == 10 * pow10(len1 as nat));
        lemma_pow10_pos(len1 as nat);
        let mid = acc * pow10(len1 as nat) + n / 10;
        assert(mid * 10 + n % 10 == acc * pow10((len1 + 1) as nat) + n) by (nonlinear_arith)
            requires
                n == 10 * (n / 10) + n % 10,
                pow10((len1 + 1) as nat) == 10 * pow10(len1 as nat),
                mid == acc * pow10(len1 as nat) + n / 10,
        ;
        assert(mid >= 0) by (nonlinear_arith)
            requires
                acc >= 0,
                pow10(len1 as nat) >= 1,
                n / 10 >= 0,
                mid == acc * pow10(len1 as nat) + n / 10,
        ;
        assert(mid <= mid * 10 + n % 10) by (nonlinear_arith)
            requires
                mid >= 0,
                n % 10 >= 0,
        ;
        lemma_u64_chain(n / 10, acc, seq![d] + rest);
        let t = seq![d] + rest;
        assert(t[0] == d && is_digit(d) && digit_val(d) == n % 10);
        assert(t.skip(1) =~= rest);
    }
}

/// Parsing the decimal rendering of `n` before a non-digit yields `n`.
proof fn lemma_u64_round(n: int, rest: Seq<u8>)
    requires
        0 <= n <= u64::MAX,
        rest.len() == 0 || !is_digit(rest[0]),
    ensures
        sp_u64(dec_digits(n) + rest) == Some(((n as u64), rest)),
{
    lemma_dec_digits(n);
    lemma_pow10_pos(dec_digits(n).len() as nat);
    lemma_u64_chain(n, 0, rest);
    let s = dec_digits(n) + rest;
    assert(s[0] == dec_digits(n)[0]);
    assert(is_digit(s[0]));
    assert(sp_u64_rec(rest, n) == Some((n, rest)));
}

/// Parsing fractional digits off `padk(f, k)` continues into the tail.
proof fn lemma_frac_chain(f: int, k: nat, k0: int, acc: int, rest: Seq<u8>)
    requires
        0 <= f < pow10(k),
        0 <= acc,
        0 <= k0,
        k0 + k <= 8,
    ensures
        sp_frac_rec(padk(f, k) + rest, k0, acc) == sp_frac_rec(rest, k0 + k, acc * pow10(k) + f),
    decreases k,
{
    if k == 0 {
        assert(padk(f, 0) + rest =~= rest);
        assert(pow10(0) == 1);
        assert(f == 0);
    } else {
        let d = (0x30 + f % 10) as u8;
        assert(padk(f, k) =~= padk(f / 10, (k - 1) as nat).push(d));
        assert(padk(f, k) + rest =~= padk(f / 10, (k - 1) as nat) + (seq![d] + rest));
        assert(pow10(k) == 10 * pow10((k - 1) as nat));
        vstd::arithmetic::div_mod::lemma_fundamental_div_mod(f, 10);
        assert(f / 10 < pow10((k - 1) as nat)) by (nonlinear_arith)
            requires
                f >= 0,
                f == 10 * (f / 10) + f % 10,
                f % 10 >= 0,
                f < 10 * pow10((k - 1) as nat),
        ;
        lemma_frac_chain(f / 10, (k - 1) as nat, k0, acc, seq![d] + rest);
        let mid = acc * pow10((k - 1) as nat) + f / 10;
        let t = seq![d] + rest;
        assert(t[0] == d && is_digit(d) && digit_val(d) == f % 10);
        assert(k0 + k - 1 < 8);
        assert(t.skip(1) =~= rest);
        assert(mid * 10 + f % 10 == acc * pow10(k) + f) by (nonlinear_arith)
            requires
                f == 10 * (f / 10) + f % 10,
                pow10(k) == 10 * pow10((k - 1) as nat),
                mid == acc * pow10((k - 1) as nat) + f / 10,
        ;
    }
}

/// Parsing the trimmed fractional rendering of `f` recovers its value at
/// the `10^-8` scale.
proof fn lemma_frac_round(f: int, k: nat, rest: Seq<u8>)
    requires
        1 <= k <= 8,
        0 < f < pow10(k),
        rest.len() == 0 || !is_digit(rest[0]),
    ensures
        sp_frac(trim_zeros(padk(f, k)) + rest) == Some((f * pow10((8 - k) as nat), rest)),
    decreases k,
{
    let d = (0x30 + f % 10) as u8;
    lemma_padk_len(f, k);
    assert(padk(f, k) =~= padk(f / 10, (k - 1) as nat).push(d));
    assert(padk(f, k).last() == d);
    vstd::arithmetic::div_mod::lemma_fundamental_div_mod(f, 10);
    if f % 10 == 0 {
        if k == 1 {
            assert(pow10(1) == 10 * pow10(0));
            assert(false);
        }
        assert(d == 0x30);
        assert(trim_zeros(padk(f, k)) == trim_zeros(padk(f, k).drop_last()));
        assert(padk(f, k).drop_last() =~= padk(f / 10, (k - 1) as nat));
        assert(f / 10 < pow10((k - 1) as nat)) by (nonlinear_arith)
            requires
                f >= 0,
                f == 10 * (f / 10) + f % 10,
                f % 10 >= 0,
                f < 10 * pow10((k - 1) as nat),
        ;
        assert(f / 10 > 0);
        lemma_frac_round(f / 10, (k - 1) as nat, rest);
        assert((f / 10) * pow10((8 - (k - 1)) as nat) == f * pow10((8 - k) as nat))
            by (nonlinear_arith)
            requires
                f == 10 * (f / 10),
                pow10((8 - (k - 1)) as nat) == 10 * pow10((8 - k) as nat),
        ;
    } else {
        assert(d != 0x30);
        assert(trim_zeros(padk(f, k)) == padk(f, k));
        lemma_frac_chain(f, k, 0, 0, rest);
        assert(sp_frac_rec(rest, k as int, f) == Some((f * pow10((8 - k) as nat), rest)));
    }
}

/// Parsing the canonical fixed-point rendering of `v` recovers `v`.
proof fn lemma_amount_round(v: u64, rest: Seq<u8>)
    requires
        rest.len() == 0 || (!is_digit(rest[0]) && rest[0] != 46),
    ensures
        sp_amount(enc_amount(v) + rest) == Some((v, rest)),
{
    lemma_pow10_8();
    let ip = v as int / pow10(8);
    let f = v as int % pow10(8);
    vstd::arithmetic::div_mod::lemma_fundamental_div_mod(v as int, pow10(8));
    assert(0 <= ip <= v);
    if f == 0 {
        lemma_u64_round(ip, rest);
        assert(sp_u64(enc_amount(v) + rest) == Some(((ip as u64), rest)));
        assert((ip as u64) * pow10(8) == v);
    } else {
        let tz = trim_zeros(padk(f, 8));
        assert(enc_amount(v) + rest =~= dec_digits(ip) + (seq![46u8] + (tz + rest)));
        let r = seq![46u8] + (tz + rest);
        assert(r[0] == 46 && !is_digit(46u8));
        lemma_u64_round(ip, r);
        assert(r.skip(1) =~= tz + rest);
        lemma_frac_round(f, 8, rest);
        assert(pow10(0) == 1);
        assert((ip as u64) * pow10(8) + f == v);
    }
}

/// Parsing a plain string body before its closing quote recovers it.
proof fn lemma_sp_string_round(c: Seq<u8>, rest: Seq<u8>)
    requires
        plain_bytes(c),
    ensures
        sp_string(c + (seq![0x22u8] + rest)) == Some((c, rest)),
{
    let t = c + (seq![0x22u8] + rest);
    assert(t[c.len() as int] == 0x22);
    assert forall|x: int| 0 <= x < c.len() implies plain_byte(#[trigger] t[x]) by {
        assert(t[x] == c[x]);
    }
    lemma_sp_string_scan_some(t, c.len() as int);
    assert(t.take(c.len() as int) =~= c);
    assert(t.skip(c.len() as int + 1) =~= rest);
}

/// Concrete facts about the fixed wire chunks that the round-trip proof
/// discriminates on.
proof fn lemma_wire_literal_facts()
    ensures
        lit_null().len() == 4,
        lit_null()[0] == 0x6e,
        lit_success().len() == 7,
        lit_success()[0] == 0x73,
        lit_error().len() == 5,
        lit_error()[0] == 0x65,
        lit_resp_exec().len() > 0,
        lit_resp_exec()[0] == 0x2c,
        lit_resp_ms_gas().len() > 0,
        lit_resp_ms_gas()[0] == 0x6d,
        lit_resp_errmsg().len() > 0,
        lit_resp_errmsg()[0] == 0x2c,
        lit_close().len() == 1,
{
    broadcast use vstd::string::is_ascii_spec_bytes;

    reveal_strlit("null");
    assert(vstd::string::is_ascii("null"));
    reveal_strlit("success");
    assert(vstd::string::is_ascii("success"));
    reveal_strlit("error");
    assert(vstd::string::is_ascii("error"));
    reveal_strlit(",\"execution_time\":\"");
    assert(vstd::string::is_ascii(",\"execution_time\":\""));
    reveal_strlit("ms\",\"gas_used\":");
    assert(vstd::string::is_ascii("ms\",\"gas_used\":"));
    reveal_strlit(",\"error_message\":");
    assert(vstd::string::is_ascii(",\"error_message\":"));
    reveal_strlit("}");
    assert(vstd::string::is_ascii("}"));
}

/// The status word on the wire parses back to the status.
proof fn lemma_status_field_round(st: Status, rest: Seq<u8>)
    ensures
        sp_status_field(status_bytes(st) + rest) == Some((st, rest)),
{
    lemma_wire_literal_facts();
    match st {
        Status::Success => {
            lemma_sp_lit_pass(lit_success(), rest);
        },
        Status::Error => {
            let s = lit_error() + rest;
            assert(s[0] == lit_error()[0]);
            lemma_sp_lit_fail_first(s, lit_success());
            lemma_sp_lit_pass(lit_error(), rest);
        },
    }
}

/// The profit field on the wire parses back to the profit.
proof fn lemma_profit_field_round(p: Option<u64>, rest: Seq<u8>)
    requires
        rest.len() == 0 || (!is_digit(rest[0]) && rest[0] != 46),
    ensures
        sp_opt_amount_field(opt_amount_bytes(p) + rest) == Some((p, rest)),
{
    lemma_wire_literal_facts();
    lemma_pow10_8();
    match p {
        Some(v) => {
            let s = enc_amount(v) + rest;
            let ip = v as int / pow10(8);
            lemma_dec_digits(ip);
            assert(s[0] == dec_digits(ip)[0]);
            assert(is_digit(s[0]) && s[0] != 0x6e);
            lemma_sp_lit_fail_first(s, lit_null());
            lemma_amount_round(v, rest);
        },
        None => {
            lemma_sp_lit_pass(lit_null(), rest);
        },
    }
}

/// The gas field on the wire parses back to the gas value.
proof fn lemma_gas_field_round(g: Option<u64>, rest: Seq<u8>)
    requires
        rest.len() == 0 || !is_digit(rest[0]),
    ensures
        sp_opt_u64_field(opt_u64_bytes(g) + rest) == Some((g, rest)),
{
    lemma_wire_literal_facts();
    match g {
        Some(v) => {
            let s = dec_digits(v as int) + rest;
            lemma_dec_digits(v as int);
            assert(s[0] == dec_digits(v as int)[0]);
            assert(is_digit(s[0]) && s[0] != 0x6e);
            lemma_sp_lit_fail_first(s, lit_null());
            lemma_u64_round(v as int, rest);
        },
        None => {
            lemma_sp_lit_pass(lit_null(), rest);
        },
    }
}

/// The message field on the wire parses back to the message.
proof fn lemma_message_field_round(msg: Option<Seq<u8>>, rest: Seq<u8>)
    requires
        msg matches Some(c) ==> plain_bytes(c),
    ensures
        sp_opt_message_field(opt_message_bytes(msg) + rest) == Some((msg, rest)),
{
    lemma_wire_literal_facts();
    match msg {
        Some(c) => {
            let s = opt_message_bytes(msg) + rest;
            assert(s[0] == 0x22);
            lemma_sp_lit_fail_first(s, lit_null());
            assert(s.skip(1) =~= c + (seq![0x22u8] + rest));
            lemma_sp_string_round(c, rest);
            assert(sp_qstring(s) == Some((c, rest)));
        },
        None => {
            lemma_sp_lit_pass(lit_null(), rest);
        },
    }
}

/// The round-trip law: decoding the canonical encoding of any well-formed
/// response yields that response again, field for field.
#[verifier::rlimit(100)]
pub proof fn lemma_response_round_trip(m: ResponseModel)
    requires
        m.wf(),
    ensures
        sp_decode_response(sp_encode_response(m)) == Some(m),
{
    lemma_wire_literal_facts();
    let st = status_bytes(m.status);
    let pf = opt_amount_bytes(m.profit_e8);
    let td = dec_digits(m.execution_time_ms as int);
    let gs = opt_u64_bytes(m.gas_used);
    let em = opt_message_bytes(m.error_message);
    let r_close = lit_close();
    let r_em = em + r_close;
    let r_errmsg = lit_resp_errmsg() + r_em;
    let r_gs = gs + r_errmsg;
    let r_msgas = lit_resp_ms_gas() + r_gs;
    let r_td = td + r_msgas;
    let r_exec = lit_resp_exec() + r_td;
    let r_pf = pf + r_exec;
    let r_profit = lit_resp_profit() + r_pf;
    let r_st = st + r_profit;
    let s = sp_encode_response(m);
    assert(s =~= lit_resp_head() + r_st);
    lemma_sp_lit_pass(lit_resp_head(), r_st);
    lemma_status_field_round(m.status, r_profit);
    lemma_sp_lit_pass(lit_resp_profit(), r_pf);
    assert(r_exec[0] == 0x2c && !is_digit(0x2c) && 0x2c != 46u8);
    lemma_profit_field_round(m.profit_e8, r_exec);
    lemma_sp_lit_pass(lit_resp_exec(), r_td);
    assert(r_msgas[0] == 0x6d && !is_digit(0x6d));
    lemma_u64_round(m.execution_time_ms as int, r_msgas);
    assert(sp_u64(r_td) == Some((m.execution_time_ms, r_msgas)));
    lemma_sp_lit_pass(lit_resp_ms_gas(), r_gs);
    assert(r_errmsg[0] == 0x2c);
    lemma_gas_field_round(m.gas_used, r_errmsg);
    lemma_sp_lit_pass(lit_resp_errmsg(), r_em);
    lemma_message_field_round(m.error_message, r_close);
    assert(r_close =~= lit_close() + Seq::<u8>::empty());
    lemma_sp_lit_pass(lit_close(), Seq::<u8>::empty());
    assert(sp_finish_response(
        m.status,
        m.profit_e8,
        m.execution_time_ms,
        m.gas_used,
        m.error_message,
        r_close,
    ) == Some(m));
    assert(sp_decode_response(s) == Some(m));
}

} // verus!
