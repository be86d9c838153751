//! One discovery binding: the multicast socket configuration for one local
//! interface, in either the sender or the receiver role.
//!
//! The binding does not perform socket calls itself; it produces the exact
//! ordered sequence of configuration steps the surrounding process must
//! apply to its socket. Stating the plan as data pins down the options that
//! matter for correctness: address reuse on the receive path, the explicit
//! outbound interface on both paths, a multicast TTL above one on the send
//! path, and the group join per interface.

use vstd::prelude::*;
use crate::addr::Ipv4Address;

verus! {

/// The multicast TTL the sender configures: well above one, so an
/// announcement can cross a routed hop or tunnel boundary.
pub const DEFAULT_MULTICAST_TTL: u32 = 32;

/// One socket-configuration step. The process applies them in order to a
/// fresh UDP socket; any step failing is fatal to that binding's task.
#[derive(Clone, Copy, PartialEq, Eq, Structural, Debug)]
pub enum SetupStep {
    /// Bind to `interface:0`, an ephemeral local port.
    BindEphemeral { interface: Ipv4Address },
    /// Bind to `interface:port`, the fixed rendezvous port.
    BindPort { interface: Ipv4Address, port: u16 },
    /// Enable address reuse, so several listeners can share the port.
    SetReuseAddress,
    /// Enable the general broadcast capability.
    EnableBroadcast,
    /// Select `interface` as the outbound multicast interface.
    SetOutboundInterface { interface: Ipv4Address },
    /// Join `group` on `interface`.
    JoinGroup { group: Ipv4Address, interface: Ipv4Address },
    /// Raise the multicast TTL to `ttl`.
    SetMulticastTtl { ttl: u32 },
    /// Enter the bind coordinator's critical section.
    AcquirePermit,
    /// Leave the bind coordinator's critical section.
    ReleasePermit,
}

/// Configuration of one discovery binding: the local interface it operates
/// on (the wildcard address means "any interface"), the multicast group,
/// and the rendezvous port shared by sender and receivers.
#[derive(Clone, Copy, PartialEq, Eq, Structural, Debug)]
pub struct Discovery {
    pub broadcast_interface: Ipv4Address,
    pub broadcast_group: Ipv4Address,
    pub broadcast_port: u16,
}

/// The sender's setup: bind to an ephemeral port on the interface, select
/// it for outbound multicast, join the group on it, and raise the TTL.
pub open spec fn spec_sender_plan(d: Discovery) -> Seq<SetupStep> {
    seq![
        SetupStep::BindEphemeral { interface: d.broadcast_interface },
        SetupStep::SetOutboundInterface { interface: d.broadcast_interface },
        SetupStep::JoinGroup { group: d.broadcast_group, interface: d.broadcast_interface },
        SetupStep::SetMulticastTtl { ttl: DEFAULT_MULTICAST_TTL },
    ]
}

/// The receiver's setup: the whole bind-and-configure section runs under
/// the coordinator's permit, binds the rendezvous port, enables address
/// reuse and broadcast, selects the outbound interface, and joins the
/// group; the permit is released before the receive loop begins.
pub open spec fn spec_receiver_plan(d: Discovery) -> Seq<SetupStep> {
    seq![
        SetupStep::AcquirePermit,
        SetupStep::BindPort { interface: d.broadcast_interface, port: d.broadcast_port },
        SetupStep::SetReuseAddress,
        SetupStep::EnableBroadcast,
        SetupStep::SetOutboundInterface { interface: d.broadcast_interface },
        SetupStep::JoinGroup { group: d.broadcast_group, interface: d.broadcast_interface },
        SetupStep::ReleasePermit,
    ]
}

impl Discovery {
    pub fn new(
        broadcast_interface: Ipv4Address,
        broadcast_group: Ipv4Address,
        broadcast_port: u16,
    ) -> (r: Discovery)
        ensures
            r == (Discovery { broadcast_interface, broadcast_group, broadcast_port }),
    {
        Discovery { broadcast_interface, broadcast_group, broadcast_port }
    }

    /// The ordered socket-configuration steps for the sender role.
    pub fn sender_plan(&self) -> (r: Vec<SetupStep>)
        ensures
            r@ == spec_sender_plan(*self),
    {
        let mut r: Vec<SetupStep> = Vec::new();
        r.push(SetupStep::BindEphemeral { interface: self.broadcast_interface });
        r.push(SetupStep::SetOutboundInterface { interface: self.broadcast_interface });
        r.push(
            SetupStep::JoinGroup {
                group: self.broadcast_group,
                interface: self.broadcast_interface,
            },
        );
        r.push(SetupStep::SetMulticastTtl { ttl: DEFAULT_MULTICAST_TTL });
        assert(r@ =~= spec_sender_plan(*self));
        r
    }

    /// The ordered socket-configuration steps for the receiver role.
    pub fn receiver_plan(&self) -> (r: Vec<SetupStep>)
        ensures
            r@ == spec_receiver_plan(*self),
    {
        let mut r: Vec<SetupStep> = Vec::new();
        r.push(SetupStep::AcquirePermit);
        r.push(
            SetupStep::BindPort {
                interface: self.broadcast_interface,
                port: self.broadcast_port,
            },
        );
        r.push(SetupStep::SetReuseAddress);
        r.push(SetupStep::EnableBroadcast);
        r.push(SetupStep::SetOutboundInterface { interface: self.broadcast_interface });
        r.push(
            SetupStep::JoinGroup {
                group: self.broadcast_group,
                interface: self.broadcast_interface,
            },
        );
        r.push(SetupStep::ReleasePermit);
        assert(r@ =~= spec_receiver_plan(*self));
        r
    }
}

/// The receiver plan's shape that the reuse property relies on: address
/// reuse is configured immediately after the bind, and both happen inside
/// the coordinator's critical section, so no second listener can start its
/// own bind before reuse is in effect on this one.
pub proof fn lemma_receiver_plan_reuse(d: Discovery)
    ensures
        spec_receiver_plan(d)[0] == SetupStep::AcquirePermit,
        spec_receiver_plan(d)[1] == (SetupStep::BindPort {
            interface: d.broadcast_interface,
            port: d.broadcast_port,
        }),
        spec_receiver_plan(d)[2] == SetupStep::SetReuseAddress,
        spec_receiver_plan(d).last() == SetupStep::ReleasePermit,
        forall|i: int|
            0 < i < spec_receiver_plan(d).len() - 1 ==> !(#[trigger] spec_receiver_plan(d)[i]
                is AcquirePermit) && !(spec_receiver_plan(d)[i] is ReleasePermit),
{
}

} // verus!
