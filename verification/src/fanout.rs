//! Task fan-out: one announcer or listener task per usable interface, run
//! concurrently, waiting for all to finish with the first failure as the
//! run's result.
//!
//! The fan-out itself is scheduled by the surrounding process; this module
//! holds its decisions: which discovered interfaces get a task at all
//! (link-local addresses are excluded), the binding each task is built
//! from, and the outcome of a whole run given the task results in the
//! order they completed.

use vstd::prelude::*;
use crate::addr::Ipv4Address;
use crate::binding::{Discovery, SetupStep};

verus! {

/// Why a discovery task failed: the setup step, send, or receive that the
/// surrounding process reported as failing.
#[derive(Clone, Copy, PartialEq, Eq, Structural, Debug)]
pub enum FailureKind {
    /// A socket-configuration step failed.
    Setup { step: SetupStep },
    /// Sending an announcement datagram failed.
    Send,
    /// Receiving a datagram failed.
    Receive,
}

/// A fatal error of one discovery task: which interface's task failed, and
/// how. Fatal errors are never retried; the first one ends the run.
#[derive(Clone, Copy, PartialEq, Eq, Structural, Debug)]
pub struct TaskError {
    pub interface: Ipv4Address,
    pub kind: FailureKind,
}

/// The interfaces that take part in a run: the discovered list with
/// link-local addresses excluded, in discovery order. An empty result is
/// valid and yields a run with no tasks.
pub fn usable_interfaces(discovered: &Vec<Ipv4Address>) -> (r: Vec<Ipv4Address>)
    ensures
        r@ == discovered@.filter(|ip: Ipv4Address| !ip.spec_is_link_local()),
{
    let mut r: Vec<Ipv4Address> = Vec::new();
    let mut i: usize = 0;
    while i < discovered.len()
        invariant
            i <= discovered.len(),
            r@ == discovered@.take(i as int).filter(|ip: Ipv4Address| !ip.spec_is_link_local()),
        decreases discovered.len() - i,
    {
        let ip = discovered[i];
        if !ip.is_link_local() {
            r.push(ip);
        }
        proof {
            reveal(Seq::filter);
            assert(discovered@.take(i + 1).drop_last() =~= discovered@.take(i as int));
            assert(discovered@.take(i + 1).last() == discovered@[i as int]);
        }
        i = i + 1;
    }
    proof {
        assert(discovered@.take(discovered@.len() as int) =~= discovered@);
    }
    r
}

/// One binding per usable interface, all on the same group and port: the
/// task specifications of one run.
pub fn make_bindings(interfaces: &Vec<Ipv4Address>, group: Ipv4Address, port: u16) -> (r: Vec<
    Discovery,
>)
    ensures
        r@.len() == interfaces@.len(),
        forall|i: int|
            0 <= i < r@.len() ==> #[trigger] r@[i] == (Discovery {
                broadcast_interface: interfaces@[i],
                broadcast_group: group,
                broadcast_port: port,
            }),
{
    let mut r: Vec<Discovery> = Vec::new();
    let mut i: usize = 0;
    while i < interfaces.len()
        invariant
            i <= interfaces.len(),
            r@.len() == i,
            forall|k: int|
                0 <= k < i ==> #[trigger] r@[k] == (Discovery {
                    broadcast_interface: interfaces@[k],
                    broadcast_group: group,
                    broadcast_port: port,
                }),
        decreases interfaces.len() - i,
    {
        r.push(Discovery::new(interfaces[i], group, port));
        i = i + 1;
    }
    r
}

/// The outcome of a whole run, from the task results in completion order:
/// success exactly when every task succeeded, and otherwise the error of
/// the first task to fail, without waiting on the later results.
pub fn run_outcome(results: &Vec<Result<(), TaskError>>) -> (r: Result<(), TaskError>)
    ensures
        r is Ok <==> (forall|i: int| 0 <= i < results@.len() ==> #[trigger] results@[i] is Ok),
        r is Err ==> exists|i: int|
            {
                &&& 0 <= i < results@.len()
                &&& #[trigger] results@[i] == r
                &&& forall|j: int| 0 <= j < i ==> #[trigger] results@[j] is Ok
            },
{
    let mut i: usize = 0;
    while i < results.len()
        invariant
            i <= results.len(),
            forall|j: int| 0 <= j < i ==> #[trigger] results@[j] is Ok,
        decreases results.len() - i,
    {
        match results[i] {
            Ok(()) => {},
            Err(e) => {
                return Err(e);
            },
        }
        i = i + 1;
    }
    Ok(())
}

} // verus!
