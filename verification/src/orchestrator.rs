//! Phase sequence from power-on to "image on glass".
//!
//! A strict linear progression with no way back: the device associates,
//! acquires an address, performs its one best-effort fetch, composes and
//! renders the image, and then idles forever, only keeping the network
//! stack's timers serviced. A fetch that fails or times out never blocks
//! composition: the display is rendered regardless.

use vstd::prelude::*;

verus! {

/// Phase of the one power cycle.
#[derive(Clone, Copy, PartialEq, Eq, Structural, Debug)]
pub enum Phase {
    Init,
    RadioUp,
    AddressAcquired,
    Fetching,
    FetchDone,
    FetchTimeout,
    Composing,
    Rendered,
    Idle,
}

/// How the one fetch attempt ended.
#[derive(Clone, Copy, PartialEq, Eq, Structural, Debug)]
pub enum FetchOutcome {
    Done,
    TimedOut,
}

/// Position of a phase in the forward-only progression; the two fetch
/// endings share a rank.
pub open spec fn phase_rank(p: Phase) -> int {
    match p {
        Phase::Init => 0,
        Phase::RadioUp => 1,
        Phase::AddressAcquired => 2,
        Phase::Fetching => 3,
        Phase::FetchDone => 4,
        Phase::FetchTimeout => 4,
        Phase::Composing => 5,
        Phase::Rendered => 6,
        Phase::Idle => 7,
    }
}

/// The successor of each phase. Only `Fetching` branches, on the fetch
/// outcome, and both branches rejoin at `Composing`; `Idle` is terminal.
pub open spec fn next_phase_spec(p: Phase, fetch: FetchOutcome) -> Phase {
    match p {
        Phase::Init => Phase::RadioUp,
        Phase::RadioUp => Phase::AddressAcquired,
        Phase::AddressAcquired => Phase::Fetching,
        Phase::Fetching => match fetch {
            FetchOutcome::Done => Phase::FetchDone,
            FetchOutcome::TimedOut => Phase::FetchTimeout,
        },
        Phase::FetchDone => Phase::Composing,
        Phase::FetchTimeout => Phase::Composing,
        Phase::Composing => Phase::Rendered,
        Phase::Rendered => Phase::Idle,
        Phase::Idle => Phase::Idle,
    }
}

/// Advances one phase. The progression only moves forward, `Idle` is
/// terminal, and either fetch ending — success or timeout — reaches
/// `Composing`: a failed fetch never blocks the render.
pub fn next_phase(p: Phase, fetch: FetchOutcome) -> (n: Phase)
    ensures
        n == next_phase_spec(p, fetch),
        phase_rank(n) >= phase_rank(p),
        p != Phase::Idle ==> phase_rank(n) == phase_rank(p) + 1,
        p == Phase::Idle ==> n == Phase::Idle,
{
    match p {
        Phase::Init => Phase::RadioUp,
        Phase::RadioUp => Phase::AddressAcquired,
        Phase::AddressAcquired => Phase::Fetching,
        Phase::Fetching => match fetch {
            FetchOutcome::Done => Phase::FetchDone,
            FetchOutcome::TimedOut => Phase::FetchTimeout,
        },
        Phase::FetchDone => Phase::Composing,
        Phase::FetchTimeout => Phase::Composing,
        Phase::Composing => Phase::Rendered,
        Phase::Rendered => Phase::Idle,
        Phase::Idle => Phase::Idle,
    }
}

/// Law: the progression is monotone and `Idle` absorbs: after any number of
/// further steps an idle device is still idle, doing nothing but stack
/// maintenance.
pub proof fn lemma_idle_terminal(p: Phase, fetch: FetchOutcome)
    ensures
        phase_rank(next_phase_spec(p, fetch)) >= phase_rank(p),
        p == Phase::Idle ==> next_phase_spec(p, fetch) == Phase::Idle,
{
}

} // verus!
