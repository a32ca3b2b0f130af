//! The reactor's decisions on the outcome of its own I/O calls: draining the
//! listening socket and polling for readiness.

use vstd::prelude::*;

verus! {

/// How one accept call on the non-blocking listening socket ended.
#[derive(Clone, Copy, Debug, PartialEq, Eq, Structural)]
pub enum AcceptOutcome {
    /// A connection was taken from the queue.
    Accepted,
    /// The queue is empty.
    WouldBlock,
    /// The call was interrupted by a signal.
    Interrupted,
    /// Any other error.
    Failed,
}

/// What the reactor does after an accept call.
#[derive(Clone, Copy, Debug, PartialEq, Eq, Structural)]
pub enum DrainStep {
    /// Register the connection, then accept again.
    Register,
    /// Accept again.
    Retry,
    /// The queue is drained: go back to polling.
    Done,
    /// Stop the reactor with the error.
    Fatal,
}

pub open spec fn drain_step_of(o: AcceptOutcome) -> DrainStep {
    match o {
        AcceptOutcome::Accepted => DrainStep::Register,
        AcceptOutcome::WouldBlock => DrainStep::Done,
        AcceptOutcome::Interrupted => DrainStep::Retry,
        AcceptOutcome::Failed => DrainStep::Fatal,
    }
}

/// The next step of the accept loop: every accepted connection is registered
/// and the loop goes on until the queue reports that it would block.
pub fn drain_step(o: AcceptOutcome) -> (r: DrainStep)
    ensures
        r == drain_step_of(o),
{
    match o {
        AcceptOutcome::Accepted => DrainStep::Register,
        AcceptOutcome::WouldBlock => DrainStep::Done,
        AcceptOutcome::Interrupted => DrainStep::Retry,
        AcceptOutcome::Failed => DrainStep::Fatal,
    }
}

/// The number of connections that the accept loop registers when the
/// accept calls end as `os` says, in order, up to the step that ends it.
pub open spec fn drained(os: Seq<AcceptOutcome>) -> nat
    decreases os.len(),
{
    if os.len() == 0 {
        0
    } else {
        match drain_step_of(os[0]) {
            DrainStep::Register => 1 + drained(os.drop_first()),
            DrainStep::Retry => drained(os.drop_first()),
            _ => 0,
        }
    }
}

/// The accept loop ends by going back to polling (not on an error) when the
/// accept calls end as `os` says.
pub open spec fn drain_returns_to_polling(os: Seq<AcceptOutcome>) -> bool
    decreases os.len(),
{
    if os.len() == 0 {
        false
    } else {
        match drain_step_of(os[0]) {
            DrainStep::Register | DrainStep::Retry => drain_returns_to_polling(os.drop_first()),
            DrainStep::Done => true,
            DrainStep::Fatal => false,
        }
    }
}

/// With `k` connections pending when the listener becomes ready, all `k` are
/// registered before the reactor goes back to polling, whatever interrupted
/// calls come between them.
pub proof fn lemma_accept_drains(os: Seq<AcceptOutcome>, k: nat)
    requires
        os.len() > 0,
        os.last() == AcceptOutcome::WouldBlock,
        forall|i: int|
            0 <= i < os.len() - 1 ==> #[trigger] os[i] == AcceptOutcome::Accepted || os[i]
                == AcceptOutcome::Interrupted,
        os.filter(|o: AcceptOutcome| o == AcceptOutcome::Accepted).len() == k,
    ensures
        drained(os) == k,
        drain_returns_to_polling(os),
    decreases os.len(),
{
    let f = |o: AcceptOutcome| o == AcceptOutcome::Accepted;
    if os.len() == 1 {
        assert(os[0] == os.last());
        reveal_with_fuel(Seq::filter, 2);
        assert(os.filter(f) =~= Seq::<AcceptOutcome>::empty()) by {
            assert(os =~= Seq::<AcceptOutcome>::empty().push(os[0]));
            assert(Seq::<AcceptOutcome>::empty().filter(f) =~= Seq::<AcceptOutcome>::empty());
        }
    } else {
        let rest = os.drop_first();
        assert(os =~= seq![os[0]] + rest);
        Seq::filter_distributes_over_add(seq![os[0]], rest, f);
        reveal_with_fuel(Seq::filter, 2);
        assert(seq![os[0]] =~= Seq::<AcceptOutcome>::empty().push(os[0]));
        assert(Seq::<AcceptOutcome>::empty().filter(f) =~= Seq::<AcceptOutcome>::empty());
        let k2: nat = rest.filter(f).len();
        assert forall|i: int| 0 <= i < rest.len() - 1 implies #[trigger] rest[i]
            == AcceptOutcome::Accepted || rest[i] == AcceptOutcome::Interrupted by {
            assert(rest[i] == os[i + 1]);
        }
        assert(rest.last() == os.last());
        lemma_accept_drains(rest, k2);
    }
}

} // verus!
