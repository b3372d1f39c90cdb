//! Fuzz results: one record per executed wordlist entry.
use vstd::prelude::*;
use vstd::string::StrSliceExecFns;
use vstd::string::StringExecFns;

verus! {

/// The outcome of one executed request, tagged with the wordlist index
/// (in decimal) and the payload. `status` is 0 exactly when `error` holds a
/// description of why no response came.
pub struct FuzzResult {
    pub request_id: String,
    pub payload: String,
    pub status: i32,
    pub time_ms: i32,
    pub size_bytes: i32,
    pub error: Option<String>,
}

/// What one request execution produced: an HTTP response with its status
/// code and body size in bytes, or a failure.
pub enum Exchange {
    Response { status: u16, size: u64 },
    Failure { message: String },
}

/// The decimal digit for `d`.
pub open spec fn digit_char(d: nat) -> char {
    "0123456789"@[d as int]
}

/// The decimal representation of `n`, without leading zeros.
pub open spec fn decimal(n: nat) -> Seq<char>
    decreases n,
{
    if n < 10 {
        seq![digit_char(n)]
    } else {
        decimal(n / 10).push(digit_char(n % 10))
    }
}

/// `v` as an `i32`, capped at `i32::MAX`.
pub open spec fn capped(v: nat) -> i32 {
    if v > i32::MAX {
        i32::MAX
    } else {
        v as i32
    }
}

/// The decimal representation of `n`.
pub fn decimal_string(n: usize) -> (r: String)
    ensures
        r@ == decimal(n as nat),
    decreases n,
{
    let digits = "0123456789";
    proof {
        reveal_strlit("0123456789");
    }
    if n < 10 {
        let d = digits.substring_char(n, n + 1);
        let r = String::from_str(d);
        assert(r@ =~= decimal(n as nat));
        r
    } else {
        let mut r = decimal_string(n / 10);
        let d = digits.substring_char(n % 10, n % 10 + 1);
        r.append(d);
        assert(r@ =~= decimal(n as nat));
        r
    }
}

fn capped_i32(v: u64) -> (r: i32)
    ensures
        r == capped(v as nat),
{
    if v > i32::MAX as u64 {
        i32::MAX
    } else {
        v as i32
    }
}

/// `r` is the record for entry `index` with payload `payload`, whose execution
/// took `elapsed_ms` and produced `exchange`.
pub open spec fn result_for(r: FuzzResult, index: nat, payload: Seq<char>, exchange: Exchange, elapsed_ms: nat) -> bool {
    &&& r.request_id@ == decimal(index)
    &&& r.payload@ == payload
    &&& r.time_ms == capped(elapsed_ms)
    &&& match exchange {
        Exchange::Response { status, size } => {
            &&& r.status == status as i32
            &&& r.size_bytes == capped(size as nat)
            &&& r.error is None
        },
        Exchange::Failure { message } => {
            &&& r.status == 0
            &&& r.size_bytes == 0
            &&& r.error is Some
            &&& r.error->0@ == message@
        },
    }
}

/// A status code as HTTP defines it: three digits.
pub open spec fn exchange_ok(exchange: Exchange) -> bool {
    exchange matches Exchange::Response { status, .. } ==> 100 <= status <= 999
}

impl FuzzResult {
    /// The record for wordlist entry `index` with payload `payload`, whose
    /// execution took `elapsed_ms` and produced `exchange`. Times and sizes
    /// beyond `i32::MAX` are capped there.
    pub fn from_exchange(index: usize, payload: &str, exchange: Exchange, elapsed_ms: u64) -> (r: FuzzResult)
        requires
            exchange_ok(exchange),
        ensures
            result_for(r, index as nat, payload@, exchange, elapsed_ms as nat),
            r.status == 0 <==> r.error is Some,
    {
        let request_id = decimal_string(index);
        let payload = String::from_str(payload);
        let time_ms = capped_i32(elapsed_ms);
        match exchange {
            Exchange::Response { status, size } => FuzzResult {
                request_id,
                payload,
                status: status as i32,
                time_ms,
                size_bytes: capped_i32(size),
                error: None,
            },
            Exchange::Failure { message } => FuzzResult {
                request_id,
                payload,
                status: 0,
                time_ms,
                size_bytes: 0,
                error: Some(message),
            },
        }
    }
}

} // verus!
