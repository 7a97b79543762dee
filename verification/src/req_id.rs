//! Request-id formatting: the correlation header value combines the
//! process-wide download start time, the nanosecond delta since it, the
//! retry count, an optional task id, and the attempt timeout.
//!
//! The start time itself is process state that the caller owns; it enters
//! and leaves here as plain milliseconds.

use vstd::prelude::*;
use crate::codec::{spec_dec_digits, u64_to_dec, u128_to_dec};

verus! {

/// Records the download start time (milliseconds since the epoch) in the
/// caller's process-wide cell.
pub fn set_download_start_time(start_time_ms: &mut u64, t_ms: u64)
    ensures
        *final(start_time_ms) == t_ms,
{
    *start_time_ms = t_ms;
}

/// Milliseconds from the recorded start time to the reading `t_ms`.
pub fn total_download_duration(start_time_ms: u64, t_ms: u64) -> (r: u64)
    requires
        t_ms >= start_time_ms,
    ensures
        r == t_ms - start_time_ms,
{
    t_ms - start_time_ms
}

/// The recorded start time and the nanoseconds elapsed since it.
pub fn get_start_time_and_delta(start_time_ms: u64, now_ns: u128) -> (r: (u64, u128))
    requires
        now_ns >= start_time_ms * 1_000_000,
    ensures
        r.0 == start_time_ms,
        r.1 == now_ns - start_time_ms * 1_000_000,
{
    proof {
        assert((start_time_ms as u128) * 1_000_000 <= u128::MAX) by (nonlinear_arith)
            requires
                start_time_ms <= u64::MAX,
        ;
    }
    let base: u128 = (start_time_ms as u128) * 1_000_000;
    (start_time_ms, now_ns - base)
}

/// The header value `r{start}-{delta}-t{tries}-o{timeout}`.
pub open spec fn spec_req_id(start: int, delta: int, tries: int, timeout_ms: int) -> Seq<char> {
    "r"@ + spec_dec_digits(start) + "-"@ + spec_dec_digits(delta) + "-t"@ + spec_dec_digits(tries)
        + "-o"@ + spec_dec_digits(timeout_ms)
}

/// The header value `r{start}-{delta}-t{tries}-a{task}-o{timeout}`.
pub open spec fn spec_req_id2(
    start: int,
    delta: int,
    tries: int,
    task_id: int,
    timeout_ms: int,
) -> Seq<char> {
    "r"@ + spec_dec_digits(start) + "-"@ + spec_dec_digits(delta) + "-t"@ + spec_dec_digits(tries)
        + "-a"@ + spec_dec_digits(task_id) + "-o"@ + spec_dec_digits(timeout_ms)
}

/// Formats the correlation header of one attempt.
pub fn get_req_id(start_time_ms: u64, now_ns: u128, tries: usize, timeout_ms: u64) -> (r: String)
    requires
        now_ns >= start_time_ms * 1_000_000,
    ensures
        r@ == spec_req_id(
            start_time_ms as int,
            now_ns - start_time_ms * 1_000_000,
            tries as int,
            timeout_ms as int,
        ),
{
    let (start, delta) = get_start_time_and_delta(start_time_ms, now_ns);
    let mut out = String::new();
    out.append("r");
    let d1 = u64_to_dec(start);
    out.append(d1.as_str());
    out.append("-");
    let d2 = u128_to_dec(delta);
    out.append(d2.as_str());
    out.append("-t");
    let d3 = u64_to_dec(tries as u64);
    out.append(d3.as_str());
    out.append("-o");
    let d4 = u64_to_dec(timeout_ms);
    out.append(d4.as_str());
    proof {
        assert(out@ =~= spec_req_id(
            start_time_ms as int,
            now_ns - start_time_ms * 1_000_000,
            tries as int,
            timeout_ms as int,
        ));
    }
    out
}

/// Formats the correlation header of one attempt of an asynchronous task.
pub fn get_req_id2(
    start_time_ms: u64,
    now_ns: u128,
    tries: usize,
    async_task_id: u32,
    timeout_ms: u64,
) -> (r: String)
    requires
        now_ns >= start_time_ms * 1_000_000,
    ensures
        r@ == spec_req_id2(
            start_time_ms as int,
            now_ns - start_time_ms * 1_000_000,
            tries as int,
            async_task_id as int,
            timeout_ms as int,
        ),
{
    let (start, delta) = get_start_time_and_delta(start_time_ms, now_ns);
    let mut out = String::new();
    out.append("r");
    let d1 = u64_to_dec(start);
    out.append(d1.as_str());
    out.append("-");
    let d2 = u128_to_dec(delta);
    out.append(d2.as_str());
    out.append("-t");
    let d3 = u64_to_dec(tries as u64);
    out.append(d3.as_str());
    out.append("-a");
    let d4 = u64_to_dec(async_task_id as u64);
    out.append(d4.as_str());
    out.append("-o");
    let d5 = u64_to_dec(timeout_ms);
    out.append(d5.as_str());
    proof {
        assert(out@ =~= spec_req_id2(
            start_time_ms as int,
            now_ns - start_time_ms * 1_000_000,
            tries as int,
            async_task_id as int,
            timeout_ms as int,
        ));
    }
    out
}

} // verus!
