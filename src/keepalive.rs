//! The keep-alive monitor of one connection.
//!
//! The monitor wakes once a second. Outside the live session phase it only
//! refreshes the liveness timestamp. In the live phase it either gives up on a
//! connection that has been silent for the timeout, or sends a fresh challenge
//! and waits for the peer to echo it. The driver (a task of its own) supplies
//! the clock, the session phase and the echoed ids, and carries out the
//! returned action.

use vstd::prelude::*;

verus! {

/// Silence, in milliseconds, after which a live connection is dropped.
pub const KEEP_ALIVE_TIMEOUT_MS: u64 = 15000;

/// Time between two wake-ups of the monitor, in milliseconds.
pub const KEEP_ALIVE_INTERVAL_MS: u64 = 1000;

/// What the driver of a monitor must do after one wake-up.
#[derive(Clone, Copy, Debug, PartialEq, Eq, Structural)]
pub enum KeepAliveAction {
    /// The session is not live: the timestamp was refreshed, nothing to send.
    Refreshed,
    /// Send this challenge id to the peer, then hand the echoed id (if any)
    /// to `on_reply` before the next wake-up.
    Probe(i64),
    /// The peer stayed silent too long: close the connection and stop.
    Kick,
    /// The monitor has already stopped.
    Stopped,
}

/// State of one keep-alive monitor; times are milliseconds on a monotonic
/// clock chosen by the driver.
#[derive(Clone, Copy, Debug)]
pub struct KeepAlive {
    /// When the connection was last known to be alive.
    pub last_alive: u64,
    /// The challenge sent at the last wake-up and the time of that wake-up,
    /// while its echo is awaited.
    pub pending: Option<(i64, u64)>,
    /// Set once the monitor has kicked the connection or was cancelled.
    pub finished: bool,
}

/// The connection has been silent for at least the timeout at `now`.
pub open spec fn timed_out(last_alive: u64, now: u64) -> bool {
    now as int - last_alive as int >= KEEP_ALIVE_TIMEOUT_MS as int
}

/// The state and action after a wake-up at `now`, with the session live or
/// not, where `challenge` is the id that a probe would carry.
pub open spec fn tick_result(s: KeepAlive, now: u64, live: bool, challenge: i64) -> (
    KeepAlive,
    KeepAliveAction,
) {
    if s.finished {
        (s, KeepAliveAction::Stopped)
    } else if !live {
        (KeepAlive { last_alive: now, pending: None, finished: false }, KeepAliveAction::Refreshed)
    } else if timed_out(s.last_alive, now) {
        (
            KeepAlive { last_alive: s.last_alive, pending: None, finished: true },
            KeepAliveAction::Kick,
        )
    } else {
        (
            KeepAlive { last_alive: s.last_alive, pending: Some((challenge, now)), finished: false },
            KeepAliveAction::Probe(challenge),
        )
    }
}

/// The state after the wait for an echo ended with `reply` (`None`: nothing
/// arrived before the next wake-up). A matching echo marks the connection
/// alive as of the wake-up that sent the challenge.
pub open spec fn reply_result(s: KeepAlive, reply: Option<i64>) -> KeepAlive {
    match s.pending {
        Some(p) => if reply == Some(p.0) {
            KeepAlive { last_alive: p.1, pending: None, finished: s.finished }
        } else {
            KeepAlive { last_alive: s.last_alive, pending: None, finished: s.finished }
        },
        None => s,
    }
}

/// Relies on rand::random::<i64>: it returns some 64-bit value; nothing more
/// is known of it.
#[verifier::external_body]
fn random_challenge() -> (r: i64) {
    rand::random::<i64>()
}

impl KeepAlive {
    /// A monitor for a connection accepted at `now`.
    pub fn new(now: u64) -> (r: KeepAlive)
        ensures
            r == (KeepAlive { last_alive: now, pending: None, finished: false }),
    {
        KeepAlive { last_alive: now, pending: None, finished: false }
    }

    /// One wake-up at `now`, where a probe carries `challenge`.
    pub fn on_tick(&mut self, now: u64, live: bool, challenge: i64) -> (a: KeepAliveAction)
        ensures
            (*final(self), a) == tick_result(*old(self), now, live, challenge),
    {
        if self.finished {
            KeepAliveAction::Stopped
        } else if !live {
            self.last_alive = now;
            self.pending = None;
            KeepAliveAction::Refreshed
        } else if now >= self.last_alive && now - self.last_alive >= KEEP_ALIVE_TIMEOUT_MS {
            self.pending = None;
            self.finished = true;
            KeepAliveAction::Kick
        } else {
            self.pending = Some((challenge, now));
            KeepAliveAction::Probe(challenge)
        }
    }

    /// One wake-up at `now`, with a fresh random challenge for the probe.
    pub fn tick(&mut self, now: u64, live: bool) -> (a: KeepAliveAction)
        ensures
            exists|c: i64| (*final(self), a) == tick_result(*old(self), now, live, c),
    {
        let c = random_challenge();
        self.on_tick(now, live, c)
    }

    /// The wait for the echo of the last challenge is over.
    pub fn on_reply(&mut self, reply: Option<i64>)
        ensures
            *final(self) == reply_result(*old(self), reply),
    {
        match self.pending {
            Some(p) => {
                if reply == Some(p.0) {
                    self.last_alive = p.1;
                }
                self.pending = None;
            },
            None => {},
        }
    }

    /// Stops the monitor, as when its connection was torn down for another
    /// reason: later wake-ups do nothing.
    pub fn cancel(&mut self)
        ensures
            *final(self) == (KeepAlive {
                last_alive: old(self).last_alive,
                pending: None,
                finished: true,
            }),
    {
        self.pending = None;
        self.finished = true;
    }
}

/// The inputs of one wake-up of a monitor: the clock, whether the session is
/// live, the challenge a probe would carry, and what came back for it.
pub struct Wakeup {
    pub now: u64,
    pub live: bool,
    pub challenge: i64,
    pub reply: Option<i64>,
}

/// One wake-up, followed by the wait for an echo where a probe was sent.
pub open spec fn step(s: KeepAlive, w: Wakeup) -> KeepAlive {
    let (t, a) = tick_result(s, w.now, w.live, w.challenge);
    if a is Probe {
        reply_result(t, w.reply)
    } else {
        t
    }
}

/// The state after a run of wake-ups, in order.
pub open spec fn run(s: KeepAlive, ws: Seq<Wakeup>) -> KeepAlive
    decreases ws.len(),
{
    if ws.len() == 0 {
        s
    } else {
        step(run(s, ws.drop_last()), ws.last())
    }
}

/// A live connection that never echoes a challenge is closed exactly when a
/// wake-up comes at or after the timeout, counted from when it was last known
/// to be alive; until then the timestamp does not move.
pub proof fn lemma_silence_times_out(s: KeepAlive, ws: Seq<Wakeup>)
    requires
        !s.finished,
        forall|i: int| 0 <= i < ws.len() ==> (#[trigger] ws[i]).live,
        forall|i: int| 0 <= i < ws.len() ==> (#[trigger] ws[i]).reply != Some(ws[i].challenge),
    ensures
        run(s, ws).finished <==> exists|i: int|
            0 <= i < ws.len() && timed_out(s.last_alive, (#[trigger] ws[i]).now),
        !run(s, ws).finished ==> run(s, ws).last_alive == s.last_alive,
    decreases ws.len(),
{
    if ws.len() > 0 {
        let pre = ws.drop_last();
        lemma_silence_times_out(s, pre);
        let n = ws.len() - 1;
        assert(ws[n] == ws.last());
        assert forall|i: int| 0 <= i < pre.len() implies pre[i] == ws[i] by {}
        if run(s, pre).finished {
            let i = choose|i: int| 0 <= i < pre.len() && timed_out(s.last_alive, (#[trigger] pre[i]).now);
            assert(ws[i] == pre[i]);
        } else {
            if exists|i: int| 0 <= i < ws.len() && timed_out(s.last_alive, (#[trigger] ws[i]).now) {
                let i = choose|i: int| 0 <= i < ws.len() && timed_out(s.last_alive, (#[trigger] ws[i]).now);
                if i < n {
                    assert(pre[i] == ws[i]);
                }
            }
        }
    }
}

/// A live connection whose wake-ups come less than the timeout apart and
/// which echoes every challenge before the next wake-up is never closed, for
/// a run of any length; it is known alive as of the last wake-up.
pub proof fn lemma_echo_keeps_alive(s: KeepAlive, ws: Seq<Wakeup>)
    requires
        !s.finished,
        forall|i: int| 0 <= i < ws.len() ==> (#[trigger] ws[i]).live,
        forall|i: int| 0 <= i < ws.len() ==> (#[trigger] ws[i]).reply == Some(ws[i].challenge),
        ws.len() > 0 ==> !timed_out(s.last_alive, ws[0].now),
        forall|i: int| 0 < i < ws.len() ==> !timed_out(ws[i - 1].now, (#[trigger] ws[i]).now),
    ensures
        !run(s, ws).finished,
        ws.len() > 0 ==> run(s, ws).last_alive == ws.last().now,
        run(s, ws).pending is None || ws.len() == 0,
    decreases ws.len(),
{
    if ws.len() > 0 {
        let pre = ws.drop_last();
        let n = ws.len() - 1;
        assert forall|i: int| 0 <= i < pre.len() implies pre[i] == ws[i] by {}
        lemma_echo_keeps_alive(s, pre);
        assert(ws[n] == ws.last());
        if n > 0 {
            assert(pre.last() == ws[n - 1]);
        }
    }
}

/// Outside the live phase a connection is never closed for silence, however
/// much time passes.
pub proof fn lemma_not_live_never_kicked(s: KeepAlive, ws: Seq<Wakeup>)
    requires
        !s.finished,
        forall|i: int| 0 <= i < ws.len() ==> !(#[trigger] ws[i]).live,
    ensures
        !run(s, ws).finished,
        forall|now: u64, c: i64| tick_result(s, now, false, c).1 != KeepAliveAction::Kick,
    decreases ws.len(),
{
    if ws.len() > 0 {
        let pre = ws.drop_last();
        assert forall|i: int| 0 <= i < pre.len() implies pre[i] == ws[i] by {}
        assert(ws[ws.len() - 1] == ws.last());
        lemma_not_live_never_kicked(s, pre);
    }
}

} // verus!
