use vstd::prelude::*;

verus! {

/// Minutes between polls after a successful fetch.
pub const WAIT_BETWEEN_API_CALLS: u64 = 1;

/// Minutes to back off after a failed fetch.
pub const ERROR_WAIT_MINUTES: u64 = 3;

/// Where the service stands: fetching on the short cadence, or backing
/// off after a failure.
#[derive(Clone, Copy, PartialEq, Eq, Structural, Debug)]
pub enum PollState {
    Polling,
    Backoff,
}

/// The poll loop's whole state: the cadence it is on and how many
/// iterations have completed, the latter kept only for progress logs.
pub struct PollLoop {
    pub state: PollState,
    pub times_run: u64,
}

impl PollLoop {
    /// A fresh loop, about to poll for the first time.
    pub fn new() -> (r: PollLoop)
        ensures
            r.state == PollState::Polling,
            r.times_run == 0,
    {
        PollLoop { state: PollState::Polling, times_run: 0 }
    }

    /// One decision step: a successful fetch keeps (or restores) the
    /// polling cadence, a failure enters backoff; either way the
    /// returned value is how many seconds the binary must sleep before
    /// the next fetch, and the iteration counter advances.
    pub fn on_fetch_result(&mut self, fetch_ok: bool) -> (sleep_secs: u64)
        requires
            old(self).times_run < u64::MAX,
        ensures
            final(self).times_run == old(self).times_run + 1,
            fetch_ok ==> final(self).state == PollState::Polling && sleep_secs == 60
                * WAIT_BETWEEN_API_CALLS,
            !fetch_ok ==> final(self).state == PollState::Backoff && sleep_secs == 60
                * ERROR_WAIT_MINUTES,
    {
        self.times_run = self.times_run + 1;
        if fetch_ok {
            self.state = PollState::Polling;
            60 * WAIT_BETWEEN_API_CALLS
        } else {
            self.state = PollState::Backoff;
            60 * ERROR_WAIT_MINUTES
        }
    }

    /// Whether this iteration is one the binary logs progress on:
    /// roughly once an hour on the polling cadence.
    pub fn should_log_cycle(&self) -> (r: bool)
        ensures
            r == (self.times_run % 60 == 0),
    {
        self.times_run % 60 == 0
    }
}

} // verus!
