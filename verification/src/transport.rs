//! The request loops of the transport benchmarks, as step functions: the
//! driver performs the step's I/O and reports whether it succeeded.

use vstd::prelude::*;

verus! {

/// Where a connection loop stands, and so what its driver does next.
#[derive(PartialEq, Eq, Structural, Clone, Copy)]
pub enum LoopStep {
    /// Obtain the next connection (accept one, or open one).
    Connect,
    /// Read a buffer from the current connection.
    Read,
    /// Write a buffer to the current connection.
    Write,
    /// The loop ended normally: no further connection could be obtained.
    Finished,
    /// The loop ended on a failed read or write, whose error it reports.
    Failed,
}

/// One step of a loop that serves each connection by reading and then
/// writing a buffer, until no connection can be obtained.
pub open spec fn spec_read_then_write(step: LoopStep, succeeded: bool) -> LoopStep {
    match step {
        LoopStep::Connect => if succeeded {
            LoopStep::Read
        } else {
            LoopStep::Finished
        },
        LoopStep::Read => if succeeded {
            LoopStep::Write
        } else {
            LoopStep::Failed
        },
        LoopStep::Write => if succeeded {
            LoopStep::Connect
        } else {
            LoopStep::Failed
        },
        LoopStep::Finished => LoopStep::Finished,
        LoopStep::Failed => LoopStep::Failed,
    }
}

fn read_then_write(step: LoopStep, succeeded: bool) -> (r: LoopStep)
    ensures
        r == spec_read_then_write(step, succeeded),
{
    match step {
        LoopStep::Connect => if succeeded {
            LoopStep::Read
        } else {
            LoopStep::Finished
        },
        LoopStep::Read => if succeeded {
            LoopStep::Write
        } else {
            LoopStep::Failed
        },
        LoopStep::Write => if succeeded {
            LoopStep::Connect
        } else {
            LoopStep::Failed
        },
        LoopStep::Finished => LoopStep::Finished,
        LoopStep::Failed => LoopStep::Failed,
    }
}

/// The server loop: accept a client, read from it, write to it, and again;
/// a failed accept ends the loop with success, a failed read or write ends
/// it with that error. `succeeded` reports the outcome of `step`'s I/O.
pub fn server_test1_sync(step: LoopStep, succeeded: bool) -> (r: LoopStep)
    ensures
        r == spec_read_then_write(step, succeeded),
{
    read_then_write(step, succeeded)
}

/// The client loop: open a connection, read from it, write to it, and
/// again; a failed open ends the loop with success, a failed read or write
/// ends it with that error. `succeeded` reports the outcome of `step`'s I/O.
pub fn client_test2_sync(step: LoopStep, succeeded: bool) -> (r: LoopStep)
    ensures
        r == spec_read_then_write(step, succeeded),
{
    read_then_write(step, succeeded)
}

/// Whether the loop has ended.
pub open spec fn is_final(step: LoopStep) -> bool {
    step == LoopStep::Finished || step == LoopStep::Failed
}

/// The step reached from `step` through the given outcomes, in order.
pub open spec fn run(step: LoopStep, outcomes: Seq<bool>) -> LoopStep
    decreases outcomes.len(),
{
    if outcomes.len() == 0 {
        step
    } else {
        run(spec_read_then_write(step, outcomes[0]), outcomes.drop_first())
    }
}

/// An ended loop stays ended, whatever is reported.
pub proof fn lemma_final_is_stable(step: LoopStep, outcomes: Seq<bool>)
    requires
        is_final(step),
    ensures
        run(step, outcomes) == step,
    decreases outcomes.len(),
{
    if outcomes.len() > 0 {
        lemma_final_is_stable(step, outcomes.drop_first());
    }
}

/// Each connection is read from and then written to: from `Connect`, three
/// successful steps per connection lead back to `Connect`.
pub proof fn lemma_connections_are_served_in_turn(k: nat)
    ensures
        run(LoopStep::Connect, Seq::new(3 * k, |i: int| true)) == LoopStep::Connect,
    decreases k,
{
    let all = Seq::new(3 * k, |i: int| true);
    if k > 0 {
        lemma_connections_are_served_in_turn((k - 1) as nat);
        let rest = Seq::new(3 * ((k - 1) as nat), |i: int| true);
        let d1 = all.drop_first();
        let d2 = d1.drop_first();
        assert(d2.drop_first() =~= rest);
        assert(all[0] && d1[0] && d2[0]);
        assert(run(LoopStep::Connect, all) == run(LoopStep::Read, d1));
        assert(run(LoopStep::Read, d1) == run(LoopStep::Write, d2));
        assert(run(LoopStep::Write, d2) == run(LoopStep::Connect, rest));
    }
}

/// The loop ends normally exactly when a connection cannot be obtained, and
/// with an error exactly when a read or a write fails.
pub proof fn lemma_how_loops_end(step: LoopStep, succeeded: bool)
    requires
        !is_final(step),
    ensures
        spec_read_then_write(step, succeeded) == LoopStep::Finished <==> (step == LoopStep::Connect
            && !succeeded),
        spec_read_then_write(step, succeeded) == LoopStep::Failed <==> (step != LoopStep::Connect
            && !succeeded),
        succeeded ==> !is_final(spec_read_then_write(step, succeeded)),
{
}

} // verus!
