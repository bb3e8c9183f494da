use vstd::prelude::*;
use crate::events::Outcome;

verus! {

/// Where the connection supervisor stands.
#[derive(Clone, Copy, Debug, PartialEq, Eq, Structural)]
pub enum Phase {
    Idle,
    Connecting,
    Bootstrapping,
    Streaming,
    Backoff,
    /// A fatal failure ended the pipeline; nothing is retried.
    Stopped,
}

/// What the runner reports back to the supervisor.
#[derive(Clone, Copy, Debug, PartialEq, Eq, Structural)]
pub enum Signal {
    /// The process starts.
    Start,
    /// The transport connection is open.
    Connected,
    /// The bulk scan is merged into the mirror.
    Bootstrapped,
    /// One stream message was processed, with this outcome.
    Processed(Outcome),
    /// A step failed outside message processing (connect, scan, subscribe).
    Failed(Outcome),
    /// The backoff delay has elapsed.
    BackoffElapsed,
}

/// What the runner is to do next.
#[derive(Clone, Copy, Debug, PartialEq, Eq, Structural)]
pub enum Command {
    /// Cancel the background tasks of the previous attempt, then open the
    /// transport connection.
    TearDownAndConnect,
    /// Scan the remote accounts and merge them into the mirror.
    Bootstrap,
    /// Build the filter set, open the subscription, spawn the fee sampler
    /// and the keepalive task, and take the first message.
    OpenStream,
    /// Run the scheduler scan, then take the next message.
    Schedule,
    /// Wait out the next backoff delay.
    WaitBackoff,
    /// Stop: the failure was fatal.
    Exit,
    /// The signal does not belong to this phase; carry on as before.
    Ignore,
}

/// A failure that a new attempt may cure.
pub open spec fn is_retryable(s: Signal) -> bool {
    s == Signal::Processed(Outcome::Retryable) || s == Signal::Failed(Outcome::Retryable)
}

/// A failure that ends the pipeline.
pub open spec fn is_fatal(s: Signal) -> bool {
    s == Signal::Processed(Outcome::Fatal) || s == Signal::Failed(Outcome::Fatal)
}

/// A phase in which an attempt is under way.
pub open spec fn in_attempt(p: Phase) -> bool {
    p == Phase::Connecting || p == Phase::Bootstrapping || p == Phase::Streaming
}

/// The next phase of the supervisor, and what the runner is to do, after
/// `signal` arrives in `phase`. Each attempt tears down the previous one
/// before it connects; a retryable failure leads to a backoff and a new
/// attempt, with the mirror kept; a fatal one stops for good.
pub fn next_step(phase: Phase, signal: Signal) -> (r: (Phase, Command))
    ensures
        phase == Phase::Stopped ==> r == (Phase::Stopped, Command::Exit),
        phase != Phase::Stopped && is_fatal(signal) ==> r == (Phase::Stopped, Command::Exit),
        in_attempt(phase) && is_retryable(signal) ==> r == (Phase::Backoff, Command::WaitBackoff),
        phase == Phase::Idle && signal == Signal::Start
            ==> r == (Phase::Connecting, Command::TearDownAndConnect),
        phase == Phase::Backoff && signal == Signal::BackoffElapsed
            ==> r == (Phase::Connecting, Command::TearDownAndConnect),
        phase == Phase::Connecting && signal == Signal::Connected
            ==> r == (Phase::Bootstrapping, Command::Bootstrap),
        phase == Phase::Bootstrapping && signal == Signal::Bootstrapped
            ==> r == (Phase::Streaming, Command::OpenStream),
        phase == Phase::Streaming && signal == Signal::Processed(Outcome::Success)
            ==> r == (Phase::Streaming, Command::Schedule),
        r.1 == Command::Ignore ==> r.0 == phase,
        r.0 == Phase::Stopped ==> phase == Phase::Stopped || is_fatal(signal),
        (phase != Phase::Stopped && !is_fatal(signal) && !(in_attempt(phase) && is_retryable(signal))
            && !(phase == Phase::Idle && signal == Signal::Start)
            && !(phase == Phase::Backoff && signal == Signal::BackoffElapsed)
            && !(phase == Phase::Connecting && signal == Signal::Connected)
            && !(phase == Phase::Bootstrapping && signal == Signal::Bootstrapped)
            && !(phase == Phase::Streaming && signal == Signal::Processed(Outcome::Success)))
            ==> r == (phase, Command::Ignore),
{
    if phase == Phase::Stopped {
        return (Phase::Stopped, Command::Exit);
    }
    match signal {
        Signal::Processed(Outcome::Fatal) | Signal::Failed(Outcome::Fatal) => {
            (Phase::Stopped, Command::Exit)
        },
        Signal::Processed(Outcome::Retryable) | Signal::Failed(Outcome::Retryable) => {
            if phase == Phase::Connecting || phase == Phase::Bootstrapping || phase == Phase::Streaming {
                (Phase::Backoff, Command::WaitBackoff)
            } else {
                (phase, Command::Ignore)
            }
        },
        Signal::Start => {
            if phase == Phase::Idle {
                (Phase::Connecting, Command::TearDownAndConnect)
            } else {
                (phase, Command::Ignore)
            }
        },
        Signal::BackoffElapsed => {
            if phase == Phase::Backoff {
                (Phase::Connecting, Command::TearDownAndConnect)
            } else {
                (phase, Command::Ignore)
            }
        },
        Signal::Connected => {
            if phase == Phase::Connecting {
                (Phase::Bootstrapping, Command::Bootstrap)
            } else {
                (phase, Command::Ignore)
            }
        },
        Signal::Bootstrapped => {
            if phase == Phase::Bootstrapping {
                (Phase::Streaming, Command::OpenStream)
            } else {
                (phase, Command::Ignore)
            }
        },
        Signal::Processed(Outcome::Success) | Signal::Failed(Outcome::Success) => {
            if phase == Phase::Streaming && signal == Signal::Processed(Outcome::Success) {
                (Phase::Streaming, Command::Schedule)
            } else {
                (phase, Command::Ignore)
            }
        },
    }
}

/// The fee the sampler publishes: the new sample where one was taken, else
/// the value published before.
pub fn publish_fee(current: u64, sample: Option<u64>) -> (r: u64)
    ensures
        r == match sample {
            Some(f) => f,
            None => current,
        },
{
    match sample {
        Some(f) => f,
        None => current,
    }
}

/// `s` is in ascending order.
pub open spec fn sorted(s: Seq<u64>) -> bool {
    forall|i: int, j: int| 0 <= i <= j < s.len() ==> s[i] <= s[j]
}

/// The position of the `percentile_bps` percentile (in hundredths of a
/// percent) in `n` ascending samples; percentiles past the top select the
/// largest sample.
pub open spec fn percentile_index(n: int, percentile_bps: int) -> int {
    let i = n * percentile_bps / 10000;
    if i < n { i } else { n - 1 }
}

/// The fee samples in ascending order: the same samples, each as often.
pub fn sort_fees(fees: &Vec<u64>) -> (r: Vec<u64>)
    ensures
        sorted(r@),
        r@.to_multiset() == fees@.to_multiset(),
{
    broadcast use vstd::seq_lib::group_to_multiset_ensures;
    let mut r: Vec<u64> = Vec::new();
    let mut i: usize = 0;
    while i < fees.len()
        invariant
            i <= fees@.len(),
            sorted(r@),
            r@.to_multiset() == fees@.subrange(0, i as int).to_multiset(),
        decreases fees@.len() - i,
    {
        let x = fees[i];
        let mut pos: usize = 0;
        while pos < r.len() && r[pos] <= x
            invariant
                pos <= r@.len(),
                forall|j: int| 0 <= j < pos ==> r@[j] <= x,
            decreases r@.len() - pos,
        {
            pos += 1;
        }
        let ghost before = r@;
        r.insert(pos, x);
        proof {
            assert(forall|j: int| pos <= j < before.len() ==> x < before[j]) by {
                if pos < before.len() {
                    assert(x < before[pos as int]);
                }
            }
            assert(sorted(r@)) by {
                assert forall|a: int, b: int| 0 <= a <= b < r@.len() implies r@[a] <= r@[b] by {
                    if a < pos && b > pos {
                        assert(r@[a] == before[a] && r@[b] == before[b - 1]);
                    } else if a < pos && b < pos {
                        assert(r@[a] == before[a] && r@[b] == before[b]);
                    } else if a > pos {
                        assert(r@[a] == before[a - 1] && r@[b] == before[b - 1]);
                    }
                }
            }
            vstd::seq_lib::to_multiset_insert(before, pos as int, x);
            assert(fees@.subrange(0, i as int + 1) =~= fees@.subrange(0, i as int).push(x));
            vstd::seq_lib::to_multiset_build(fees@.subrange(0, i as int), x);
        }
        i += 1;
    }
    assert(fees@.subrange(0, fees@.len() as int) =~= fees@);
    r
}

/// The sample at the `percentile_bps` percentile (in hundredths of a
/// percent) of the fee samples, taken in ascending order; `None` where there
/// are none.
pub fn fee_at_percentile(fees: &Vec<u64>, percentile_bps: u64) -> (r: Option<u64>)
    ensures
        fees@.len() == 0 ==> r is None,
        fees@.len() > 0 ==> forall|s: Seq<u64>|
            sorted(s) && #[trigger] s.to_multiset() == fees@.to_multiset()
                ==> r == Some(s[percentile_index(fees@.len() as int, percentile_bps as int)]),
{
    broadcast use vstd::seq_lib::group_to_multiset_ensures;
    let ordered = sort_fees(fees);
    let n = ordered.len();
    assert(n == fees@.len()) by {
        assert(ordered@.to_multiset().len() == fees@.to_multiset().len());
    }
    if n == 0 {
        return None;
    }
    assert((n as int) * (percentile_bps as int) <= (u64::MAX as int) * (u64::MAX as int))
        by (nonlinear_arith)
        requires n <= u64::MAX, percentile_bps <= u64::MAX;
    let product: u128 = (n as u128) * (percentile_bps as u128);
    let scaled: u128 = product / 10000;
    let i: usize = if scaled < n as u128 { scaled as usize } else { n - 1 };
    proof {
        let leq = |a: u64, b: u64| a <= b;
        assert forall|s: Seq<u64>| sorted(s) && #[trigger] s.to_multiset() == fees@.to_multiset()
            implies s == ordered@ by {
            assert(vstd::relations::sorted_by(s, leq));
            assert(vstd::relations::sorted_by(ordered@, leq));
            assert(vstd::relations::total_ordering(leq));
            vstd::seq_lib::lemma_sorted_unique(s, ordered@, leq);
        }
    }
    Some(ordered[i])
}

/// The finality level requested for observed state.
#[derive(Clone, Copy, Debug, PartialEq, Eq, Structural)]
pub enum Commitment {
    Processed,
    Confirmed,
    Finalized,
}

/// The commitment level to subscribe with: the one configured, `Processed`
/// where none is.
pub fn get_commitment(configured: Option<Commitment>) -> (r: Commitment)
    ensures
        r == match configured {
            Some(c) => c,
            None => Commitment::Processed,
        },
{
    match configured {
        Some(c) => c,
        None => Commitment::Processed,
    }
}

} // verus!
