//! Retries and timeouts of a node: how long one attempt may take, and whether a failed
//! attempt is made again.
use vstd::prelude::*;
use crate::engine::NodeStatus;
use crate::text::{chars_of, parse_unsigned, parse_unsigned_text};

verus! {

/// The seconds in a timeout's unit: `s`, `m` or `h`.
pub open spec fn unit_seconds(c: char) -> Option<nat> {
    if c == 's' {
        Some(1)
    } else if c == 'm' {
        Some(60)
    } else if c == 'h' {
        Some(3600)
    } else {
        None
    }
}

/// The seconds a timeout such as `60s`, `5m` or `1h` stands for: a decimal number and a
/// unit, the whole fitting a `u64`. `None` for any other text.
pub open spec fn timeout_seconds(t: Seq<char>) -> Option<nat> {
    if t.len() == 0 {
        None
    } else {
        match unit_seconds(t.last()) {
            Some(unit) => match parse_unsigned(t.drop_last(), (u64::MAX as nat) / unit) {
                Some(v) => Some(v * unit),
                None => None,
            },
            None => None,
        }
    }
}

/// The seconds one attempt of a node may take, from its `timeout` text; `None` when the text
/// is not a timeout.
pub fn timeout_secs(text: &str) -> (r: Option<u64>)
    ensures
        r == (match timeout_seconds(text@) {
            Some(v) => Some(v as u64),
            None => None::<u64>,
        }),
{
    let cs = chars_of(text);
    let n = cs.len();
    if n == 0 {
        return None;
    }
    let c = cs[n - 1];
    let unit: u64 = if c == 's' {
        1
    } else if c == 'm' {
        60
    } else if c == 'h' {
        3600
    } else {
        return None;
    };
    assert(cs@.drop_last() == cs@.subrange(0, n - 1));
    match parse_unsigned_text(&cs.as_slice()[0..n - 1], u64::MAX / unit) {
        Some(v) => {
            assert(v * unit <= u64::MAX) by (nonlinear_arith)
                requires
                    v <= u64::MAX / unit,
                    unit > 0,
            ;
            Some(v * unit)
        },
        None => None,
    }
}

/// How many times a node is retried after a failed attempt: `retry`, or never.
pub open spec fn retry_limit(retry: Option<u32>) -> nat {
    match retry {
        Some(n) => n as nat,
        None => 0,
    }
}

/// After its `attempt`-th attempt (counting from 1) ended with `status`, a node with `retry`
/// is run again: the attempt failed and fewer than `retry` retries were made.
pub open spec fn retries_after(retry: Option<u32>, attempt: nat, status: NodeStatus) -> bool {
    status is Failed && attempt <= retry_limit(retry)
}

/// Whether a node with `retry` is run again after its `attempt`-th attempt ended with
/// `status`.
pub fn should_retry(retry: Option<u32>, attempt: u32, status: &NodeStatus) -> (b: bool)
    ensures
        b == retries_after(retry, attempt as nat, *status),
{
    let limit: u32 = match retry {
        Some(n) => n,
        None => 0,
    };
    status.is_failed() && attempt <= limit
}

/// The number of attempts made when the attempts from the `a`-th on (counting from 0) end
/// with `outcomes[a..]`: attempts go on while `should_retry` says so, and stop when the
/// outcomes run out.
pub open spec fn attempts_from(retry: Option<u32>, outcomes: Seq<NodeStatus>, a: nat) -> nat
    decreases outcomes.len() - a,
{
    if a >= outcomes.len() {
        a
    } else if retries_after(retry, a + 1, outcomes[a as int]) {
        attempts_from(retry, outcomes, a + 1)
    } else {
        a + 1
    }
}

/// A node that fails its first `k` attempts and then succeeds, with `k` no more than its
/// `retry`, is attempted `k + 1` times, and its last attempt is the success.
pub proof fn lemma_retried_until_success(retry: Option<u32>, outcomes: Seq<NodeStatus>, k: nat)
    requires
        k < outcomes.len(),
        k <= retry_limit(retry),
        forall|a: int| 0 <= a < k ==> #[trigger] outcomes[a] is Failed,
        outcomes[k as int] == NodeStatus::Success,
    ensures
        attempts_from(retry, outcomes, 0) == k + 1,
        outcomes[attempts_from(retry, outcomes, 0) - 1] == NodeStatus::Success,
{
    lemma_attempts_success(retry, outcomes, k, 0);
}

proof fn lemma_attempts_success(retry: Option<u32>, outcomes: Seq<NodeStatus>, k: nat, a: nat)
    requires
        a <= k < outcomes.len(),
        k <= retry_limit(retry),
        forall|b: int| 0 <= b < k ==> #[trigger] outcomes[b] is Failed,
        outcomes[k as int] == NodeStatus::Success,
    ensures
        attempts_from(retry, outcomes, a) == k + 1,
    decreases k - a,
{
    if a < k {
        assert(outcomes[a as int] is Failed);
        lemma_attempts_success(retry, outcomes, k, a + 1);
    }
}

/// A node whose attempts all fail is attempted `retry + 1` times, and ends failed.
pub proof fn lemma_gives_up_after_retries(retry: Option<u32>, outcomes: Seq<NodeStatus>)
    requires
        retry_limit(retry) < outcomes.len(),
        forall|a: int| 0 <= a < outcomes.len() ==> #[trigger] outcomes[a] is Failed,
    ensures
        attempts_from(retry, outcomes, 0) == retry_limit(retry) + 1,
        outcomes[attempts_from(retry, outcomes, 0) - 1] is Failed,
{
    lemma_attempts_failing(retry, outcomes, 0);
}

proof fn lemma_attempts_failing(retry: Option<u32>, outcomes: Seq<NodeStatus>, a: nat)
    requires
        a <= retry_limit(retry) < outcomes.len(),
        forall|b: int| 0 <= b < outcomes.len() ==> #[trigger] outcomes[b] is Failed,
    ensures
        attempts_from(retry, outcomes, a) == retry_limit(retry) + 1,
    decreases retry_limit(retry) - a,
{
    assert(outcomes[a as int] is Failed);
    if a < retry_limit(retry) {
        lemma_attempts_failing(retry, outcomes, a + 1);
    }
}

/// `Timed out after <timeout>`
pub open spec fn timed_out_message(timeout: Seq<char>) -> Seq<char> {
    "Timed out after "@ + timeout
}

/// The outcome of an attempt cut off by the node's `timeout`: failed, with no output.
pub fn timed_out(timeout: &str) -> (r: (NodeStatus, String))
    ensures
        r.0 matches NodeStatus::Failed(m) && m@ == timed_out_message(timeout@),
        r.1@.len() == 0,
{
    let mut m = "Timed out after ".to_string();
    m.append(timeout);
    (NodeStatus::Failed(m), String::new())
}

} // verus!
