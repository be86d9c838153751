//! The bind coordinator: a capacity-one mutual-exclusion gate over the
//! bind-and-configure phase of listener setup.
//!
//! Several listener sockets bound back-to-back to the same port can race
//! before address reuse takes effect on each, so the setup sections must
//! not overlap. A task may enter the critical section only when no other
//! task is inside. `run_events` and `lemma_runs_are_exclusive` state the
//! guarantee over whole runs: along any sequence of acquire and release
//! events, at most one task is ever inside its critical section.

use vstd::prelude::*;

verus! {

/// The phase of one listener task with respect to its setup section.
#[derive(Clone, Copy, PartialEq, Eq, Structural, Debug)]
pub enum TaskPhase {
    /// Not yet entered the bind-and-configure section.
    Waiting,
    /// Inside the bind-and-configure section (holds the permit).
    Binding,
    /// Finished the section and released the permit.
    Running,
}

/// An event of the coordination protocol, by task index.
#[derive(Clone, Copy, PartialEq, Eq, Structural, Debug)]
pub enum CoordEvent {
    Acquire(usize),
    Release(usize),
}

/// At most one task is inside its bind-and-configure section.
pub open spec fn mutual_exclusion(phases: Seq<TaskPhase>) -> bool {
    forall|i: int, j: int|
        0 <= i < phases.len() && 0 <= j < phases.len() && phases[i] is Binding && phases[j]
            is Binding ==> i == j
}

/// Whether `e` is allowed in state `phases`: a task may acquire only while
/// it still waits and no task is inside; it may release only from inside.
pub open spec fn event_enabled(phases: Seq<TaskPhase>, e: CoordEvent) -> bool {
    match e {
        CoordEvent::Acquire(t) => t < phases.len() && phases[t as int] is Waiting && (forall|j: int|
            0 <= j < phases.len() ==> !(#[trigger] phases[j] is Binding)),
        CoordEvent::Release(t) => t < phases.len() && phases[t as int] is Binding,
    }
}

/// The state after `e`; an event that is not enabled changes nothing.
pub open spec fn apply_event(phases: Seq<TaskPhase>, e: CoordEvent) -> Seq<TaskPhase> {
    if event_enabled(phases, e) {
        match e {
            CoordEvent::Acquire(t) => phases.update(t as int, TaskPhase::Binding),
            CoordEvent::Release(t) => phases.update(t as int, TaskPhase::Running),
        }
    } else {
        phases
    }
}

/// The state of `n` tasks after a run of events, all starting out waiting.
pub open spec fn run_events(n: nat, events: Seq<CoordEvent>) -> Seq<TaskPhase>
    decreases events.len(),
{
    if events.len() == 0 {
        Seq::new(n, |i: int| TaskPhase::Waiting)
    } else {
        apply_event(run_events(n, events.drop_last()), events.last())
    }
}

/// One coordination step keeps the sections exclusive.
pub proof fn lemma_step_preserves_exclusion(phases: Seq<TaskPhase>, e: CoordEvent)
    requires
        mutual_exclusion(phases),
    ensures
        mutual_exclusion(apply_event(phases, e)),
{
    if event_enabled(phases, e) {
        match e {
            CoordEvent::Acquire(t) => {
                let after = phases.update(t as int, TaskPhase::Binding);
                assert forall|i: int, j: int|
                    0 <= i < after.len() && 0 <= j < after.len() && after[i] is Binding && after[j]
                        is Binding implies i == j by {
                    if i != t as int {
                        assert(after[i] == phases[i]);
                    }
                    if j != t as int {
                        assert(after[j] == phases[j]);
                    }
                }
            },
            CoordEvent::Release(t) => {
                let after = phases.update(t as int, TaskPhase::Running);
                assert forall|i: int, j: int|
                    0 <= i < after.len() && 0 <= j < after.len() && after[i] is Binding && after[j]
                        is Binding implies i == j by {
                    assert(after[i] == phases[i] && after[j] == phases[j]);
                }
            },
        }
    }
}

/// The coordinator's guarantee: however a run of acquire and release events
/// from any number of listener tasks interleaves, at no instant are two
/// tasks inside their bind-and-configure sections at once.
pub proof fn lemma_runs_are_exclusive(n: nat, events: Seq<CoordEvent>)
    ensures
        mutual_exclusion(run_events(n, events)),
    decreases events.len(),
{
    if events.len() == 0 {
    } else {
        lemma_runs_are_exclusive(n, events.drop_last());
        lemma_step_preserves_exclusion(run_events(n, events.drop_last()), events.last());
    }
}

/// The capacity-one permit itself: which task, if any, is inside its
/// bind-and-configure section. A run of listener tasks shares one value of
/// this by handle; the async runtime's own semaphore must block a task
/// whose `try_acquire` returns false until a release lets it retry.
#[derive(Debug)]
pub struct BindCoordinator {
    holder: Option<usize>,
}

impl BindCoordinator {
    /// Which task currently holds the permit.
    pub closed spec fn spec_holder(&self) -> Option<usize> {
        self.holder
    }

    /// A fresh coordinator: nobody is inside a setup section.
    pub fn new() -> (r: BindCoordinator)
        ensures
            r.spec_holder() is None,
    {
        BindCoordinator { holder: None }
    }

    /// Task `t` asks to enter its bind-and-configure section. It enters
    /// exactly when the permit is free; otherwise nothing changes.
    pub fn try_acquire(&mut self, t: usize) -> (r: bool)
        ensures
            r == (old(self).spec_holder() is None),
            r ==> final(self).spec_holder() == Some(t),
            !r ==> final(self).spec_holder() == old(self).spec_holder(),
    {
        match self.holder {
            None => {
                self.holder = Some(t);
                true
            },
            Some(_) => false,
        }
    }

    /// Task `t` leaves its bind-and-configure section, freeing the permit.
    pub fn release(&mut self, t: usize)
        requires
            old(self).spec_holder() == Some(t),
        ensures
            final(self).spec_holder() is None,
    {
        self.holder = None;
    }

    /// Whether some task is currently inside its setup section.
    pub fn is_held(&self) -> (r: bool)
        ensures
            r == (self.spec_holder() is Some),
    {
        self.holder.is_some()
    }
}

} // verus!
