//! The request schedule of a benchmark client: a warm-up phase whose
//! pauses ramp down, a measured phase, then waiting for the requests still
//! in flight. The driver performs each action and asks for the next.

use vstd::prelude::*;

verus! {

/// The longest warm-up pause, in milliseconds, before the ramp goes down.
pub const RAMP_UP_START: u32 = 1000;

/// How much the warm-up ramp goes down after each random pause.
pub const RAMP_UP_STEP: u32 = 100;

/// `fastrand::u32(lo..hi)`: a random number in `lo..hi`; the crate panics on
/// an empty range, which `requires` rules out.
#[verifier::external_body]
fn random_between(lo: u32, hi: u32) -> (r: u32)
    requires
        lo < hi,
    ensures
        lo <= r < hi,
{
    fastrand::u32(lo..hi)
}

/// What the client does next.
pub enum ClientAction {
    /// Take a free slot for a request in flight and send request `req` of
    /// the warm-up phase, or of the measured phase when `measured`.
    Send { req: usize, measured: bool },
    /// Sleep for `millis` milliseconds (none when zero).
    Pause { millis: u64 },
    /// Wait until a request in flight is answered (and report it): every
    /// slot is taken, or every request is sent and some are unanswered.
    Await,
    /// The run is over: every request is sent and answered.
    Finish,
}

/// How a run stands: requests sent, whether a pause is due, and requests
/// in flight (sent and not yet answered). One action moves it on so; an
/// `Await` or a `Finish` leaves it as it is.
pub open spec fn spec_advance(per_phase: nat, concurrent: nat, st: (nat, bool, nat)) -> (
    nat,
    bool,
    nat,
) {
    let (sent, due, in_flight) = st;
    if due {
        (sent, false, in_flight)
    } else if sent < 2 * per_phase && in_flight < concurrent {
        (sent + 1, true, in_flight + 1)
    } else {
        st
    }
}

/// How a run stands after the answer to one request in flight.
pub open spec fn spec_answer(st: (nat, bool, nat)) -> (nat, bool, nat) {
    (st.0, st.1, (st.2 - 1) as nat)
}

/// One action, the answer to a request it sent coming at once.
pub open spec fn spec_prompt_step(per_phase: nat, concurrent: nat, st: (nat, bool, nat)) -> (
    nat,
    bool,
    nat,
) {
    let a = spec_advance(per_phase, concurrent, st);
    if a.2 > st.2 {
        spec_answer(a)
    } else {
        a
    }
}

/// How a run stands after `n` actions, each request answered at once.
pub open spec fn spec_prompt_run(
    per_phase: nat,
    concurrent: nat,
    st: (nat, bool, nat),
    n: nat,
) -> (nat, bool, nat)
    decreases n,
{
    if n == 0 {
        st
    } else {
        spec_prompt_run(
            per_phase,
            concurrent,
            spec_prompt_step(per_phase, concurrent, st),
            (n - 1) as nat,
        )
    }
}

/// A client run in progress.
pub struct ClientRun {
    per_phase: usize,
    sent: usize,
    pause_due: bool,
    ramp_up: u32,
    rq_sleep_millis: u64,
    concurrent: usize,
    in_flight: usize,
    answered: usize,
}

impl ClientRun {
    pub closed spec fn per_phase(&self) -> nat {
        self.per_phase as nat
    }

    pub closed spec fn concurrent(&self) -> nat {
        self.concurrent as nat
    }

    pub closed spec fn rq_sleep_millis(&self) -> u64 {
        self.rq_sleep_millis
    }

    /// The longest warm-up pause still to come.
    pub closed spec fn ramp_up(&self) -> u32 {
        self.ramp_up
    }

    /// Requests sent, whether a pause is due, requests in flight.
    pub closed spec fn standing(&self) -> (nat, bool, nat) {
        (self.sent as nat, self.pause_due, self.in_flight as nat)
    }

    /// Answers received so far.
    pub closed spec fn answered(&self) -> nat {
        self.answered as nat
    }

    /// At most `concurrent` requests are in flight, and those in flight are
    /// the requests sent less the answers received.
    pub open spec fn wf(&self) -> bool {
        &&& self.standing().2 <= self.concurrent()
        &&& self.standing().2 + self.answered() == self.standing().0
        &&& self.standing().0 <= 2 * self.per_phase()
        &&& self.inner_wf()
    }

    /// The bounds the schedule keeps internally: no overflow, a ramp that
    /// goes down in whole steps.
    pub closed spec fn inner_wf(&self) -> bool {
        &&& 2 * self.per_phase <= usize::MAX
        &&& self.ramp_up <= RAMP_UP_START
        &&& self.ramp_up % RAMP_UP_STEP == 0
        &&& (self.pause_due ==> self.sent >= 1)
    }

    /// A run of `ops_number` requests, half of them to warm up, with
    /// `concurrent_rqs` in flight at most and the given pause between
    /// requests.
    pub fn new(ops_number: usize, request_sleep_millis: u64, concurrent_rqs: usize) -> (r: Self)
        ensures
            r.wf(),
            r.per_phase() == ops_number as nat / 2,
            r.concurrent() == concurrent_rqs,
            r.rq_sleep_millis() == request_sleep_millis,
            r.ramp_up() == RAMP_UP_START,
            r.standing() == (0nat, false, 0nat),
            r.answered() == 0,
    {
        ClientRun {
            per_phase: ops_number / 2,
            sent: 0,
            pause_due: false,
            ramp_up: RAMP_UP_START,
            rq_sleep_millis: request_sleep_millis,
            concurrent: concurrent_rqs,
            in_flight: 0,
            answered: 0,
        }
    }

    /// The next action. A request is sent only into a free slot. After each
    /// request comes a pause: during the warm-up, the configured pause when
    /// there is one, else a random pause of at least half the ramp and less
    /// than the ramp, which then goes down by a step, and none once it is
    /// spent; during the measured phase, the configured pause.
    pub fn next(&mut self) -> (a: ClientAction)
        requires
            old(self).wf(),
        ensures
            final(self).wf(),
            final(self).standing() == spec_advance(
                old(self).per_phase(),
                old(self).concurrent(),
                old(self).standing(),
            ),
            final(self).answered() == old(self).answered(),
            final(self).per_phase() == old(self).per_phase(),
            final(self).concurrent() == old(self).concurrent(),
            final(self).rq_sleep_millis() == old(self).rq_sleep_millis(),
            ({
                let (sent, due, in_flight) = old(self).standing();
                let p = old(self).per_phase();
                let c = old(self).concurrent();
                let warm_up = sent <= p;
                let random = due && warm_up && old(self).rq_sleep_millis() == 0 && old(self).ramp_up()
                    > 0;
                &&& final(self).ramp_up() == if random {
                    (old(self).ramp_up() - RAMP_UP_STEP) as u32
                } else {
                    old(self).ramp_up()
                }
                &&& match a {
                    ClientAction::Pause { millis } => due && if random {
                        old(self).ramp_up() / 2 <= millis < old(self).ramp_up()
                    } else if warm_up && old(self).rq_sleep_millis() == 0 {
                        millis == 0
                    } else {
                        millis == old(self).rq_sleep_millis()
                    },
                    ClientAction::Send { req, measured } => !due && sent < 2 * p && in_flight < c
                        && measured == (sent >= p) && req == if sent < p {
                        sent
                    } else {
                        (sent - p) as nat
                    },
                    ClientAction::Await => !due && ((sent < 2 * p && in_flight == c) || (sent == 2
                        * p && in_flight > 0)),
                    ClientAction::Finish => !due && sent == 2 * p && in_flight == 0,
                }
            }),
    {
        if self.pause_due {
            self.pause_due = false;
            if self.sent <= self.per_phase {
                if self.rq_sleep_millis != 0 {
                    ClientAction::Pause { millis: self.rq_sleep_millis }
                } else if self.ramp_up > 0 {
                    let to_sleep = random_between(self.ramp_up / 2, self.ramp_up);
                    self.ramp_up = self.ramp_up - RAMP_UP_STEP;
                    ClientAction::Pause { millis: to_sleep as u64 }
                } else {
                    ClientAction::Pause { millis: 0 }
                }
            } else {
                ClientAction::Pause { millis: self.rq_sleep_millis }
            }
        } else if self.sent < 2 * self.per_phase {
            if self.in_flight < self.concurrent {
                let measured = self.sent >= self.per_phase;
                let req = if measured {
                    self.sent - self.per_phase
                } else {
                    self.sent
                };
                self.sent = self.sent + 1;
                self.in_flight = self.in_flight + 1;
                self.pause_due = true;
                ClientAction::Send { req, measured }
            } else {
                ClientAction::Await
            }
        } else if self.in_flight > 0 {
            ClientAction::Await
        } else {
            ClientAction::Finish
        }
    }

    /// Reports the answer to a request in flight, freeing its slot.
    pub fn reply_received(&mut self)
        requires
            old(self).wf(),
            old(self).standing().2 > 0,
        ensures
            final(self).wf(),
            final(self).standing() == spec_answer(old(self).standing()),
            final(self).answered() == old(self).answered() + 1,
            final(self).per_phase() == old(self).per_phase(),
            final(self).concurrent() == old(self).concurrent(),
            final(self).rq_sleep_millis() == old(self).rq_sleep_millis(),
            final(self).ramp_up() == old(self).ramp_up(),
    {
        self.in_flight = self.in_flight - 1;
        self.answered = self.answered + 1;
    }
}

/// The requests in flight never exceed `concurrent`: neither an action nor
/// an answer can take them past it.
pub proof fn lemma_in_flight_bounded(per_phase: nat, concurrent: nat, st: (nat, bool, nat))
    requires
        st.2 <= concurrent,
    ensures
        spec_advance(per_phase, concurrent, st).2 <= concurrent,
        st.2 > 0 ==> spec_answer(st).2 <= concurrent,
        spec_advance(per_phase, concurrent, st).0 > st.0 ==> st.2 < concurrent,
{
}

/// With each request answered at once, from `sent` requests with no pause
/// due, two actions per request reach all requests sent.
proof fn lemma_send_all(p: nat, c: nat, sent: nat)
    requires
        sent <= 2 * p,
        c >= 1,
    ensures
        spec_prompt_run(p, c, (sent, false, 0), ((2 * p - sent) * 2) as nat) == (2 * p, false, 0nat),
    decreases 2 * p - sent,
{
    if sent < 2 * p {
        lemma_send_all(p, c, sent + 1);
        let n = ((2 * p - sent) * 2) as nat;
        assert(spec_prompt_step(p, c, (sent, false, 0)) == (sent + 1, true, 0nat));
        assert(spec_prompt_step(p, c, (sent + 1, true, 0)) == (sent + 1, false, 0nat));
        assert(spec_prompt_run(p, c, (sent, false, 0), n) == spec_prompt_run(
            p,
            c,
            (sent + 1, true, 0),
            (n - 1) as nat,
        ));
        assert(spec_prompt_run(p, c, (sent + 1, true, 0), (n - 1) as nat) == spec_prompt_run(
            p,
            c,
            (sent + 1, false, 0),
            (n - 2) as nat,
        ));
        assert(n - 2 == (2 * p - (sent + 1)) * 2);
    }
}

/// With at least one slot and each request answered at once, the run sends
/// every request of both phases, each followed by its pause: after
/// `4 * per_phase` actions all are sent and answered, and it is over.
pub proof fn lemma_run_completes(per_phase: nat, concurrent: nat)
    requires
        concurrent >= 1,
    ensures
        spec_prompt_run(per_phase, concurrent, (0, false, 0), 4 * per_phase) == (
            2 * per_phase,
            false,
            0nat,
        ),
        spec_advance(per_phase, concurrent, (2 * per_phase, false, 0)) == (
            2 * per_phase,
            false,
            0nat,
        ),
{
    lemma_send_all(per_phase, concurrent, 0);
}

/// The throughput of a run: operations per second, from the operations
/// done and the elapsed microseconds.
pub fn ops_per_second(ops_done: usize, micros: usize) -> (r: usize)
    requires
        micros > 0,
        ops_done * 1_000_000 <= usize::MAX,
    ensures
        r == (ops_done * 1_000_000) / (micros as int),
{
    (ops_done * 1_000_000) / micros
}

} // verus!
