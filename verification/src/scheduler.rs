//! The periodic work decision: when a tick of the outer loop must run a full
//! ping sweep, and when a full inventory refresh.
//!
//! The shell owns the clock and the loop; it hands the current time (seconds
//! since the epoch) to [`Scheduler::tick`] and performs the actions decided
//! here.

use vstd::prelude::*;

verus! {

/// What one tick decided to run.
#[derive(Debug, Clone, Copy, PartialEq, Eq, Structural)]
pub struct TickActions {
    /// Run a full ping sweep.
    pub ping: bool,
    /// Run a full inventory refresh.
    pub fetch: bool,
}

/// Why a tick failed.
#[derive(Debug, Clone, Copy, PartialEq, Eq, Structural)]
pub enum TickError {
    /// The clock reads earlier than a recorded last run.
    ClockWentBackwards,
}

/// Decides periodic work: a sweep or refresh is due when more than the
/// configured interval has passed since it last ran.
pub struct Scheduler {
    /// Seconds between full ping sweeps.
    pub ping_interval: u64,
    /// Seconds between full inventory refreshes.
    pub fetch_interval: u64,
    /// When the last ping sweep was started (seconds since the epoch).
    pub last_ping: u64,
    /// When the last inventory refresh was started.
    pub last_fetch: u64,
}

impl Scheduler {
    /// A scheduler that has never run either action: both last-run times sit
    /// at the epoch, so with any realistic clock the first tick runs both.
    pub fn new(ping_interval: u64, fetch_interval: u64) -> (r: Self)
        ensures
            r.ping_interval == ping_interval,
            r.fetch_interval == fetch_interval,
            r.last_ping == 0,
            r.last_fetch == 0,
    {
        Scheduler { ping_interval, fetch_interval, last_ping: 0, last_fetch: 0 }
    }

    /// Decide the work of one tick at time `now`.  An action is due when
    /// strictly more than its interval has passed since its last run; a due
    /// action's last-run time advances to `now`.  A clock reading earlier
    /// than a recorded last run is an error; the ping decision is made (and
    /// recorded) before the fetch decision, so a backwards clock detected at
    /// the fetch comparison keeps the ping already recorded.
    pub fn tick(&mut self, now: u64) -> (r: Result<TickActions, TickError>)
        ensures
            final(self).ping_interval == old(self).ping_interval,
            final(self).fetch_interval == old(self).fetch_interval,
            now < old(self).last_ping ==> r is Err && *final(self) == *old(self),
            now >= old(self).last_ping ==> {
                let ping = now - old(self).last_ping > old(self).ping_interval;
                &&& final(self).last_ping == if ping {
                    now
                } else {
                    old(self).last_ping
                }
                &&& (now < old(self).last_fetch ==> r is Err && final(self).last_fetch == old(
                    self,
                ).last_fetch)
                &&& (now >= old(self).last_fetch ==> {
                    let fetch = now - old(self).last_fetch > old(self).fetch_interval;
                    &&& (match r {
                        Ok(a) => a.ping == ping && a.fetch == fetch,
                        Err(_) => false,
                    })
                    &&& final(self).last_fetch == if fetch {
                        now
                    } else {
                        old(self).last_fetch
                    }
                })
            },
    {
        if now < self.last_ping {
            return Err(TickError::ClockWentBackwards);
        }
        let ping = now - self.last_ping > self.ping_interval;
        if ping {
            self.last_ping = now;
        }
        if now < self.last_fetch {
            return Err(TickError::ClockWentBackwards);
        }
        let fetch = now - self.last_fetch > self.fetch_interval;
        if fetch {
            self.last_fetch = now;
        }
        Ok(TickActions { ping, fetch })
    }
}

} // verus!
