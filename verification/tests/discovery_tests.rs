use multicaster::addr::Ipv4Address;
use multicaster::binding::{Discovery, SetupStep, DEFAULT_MULTICAST_TTL};
use multicaster::coordinator::BindCoordinator;
use multicaster::fanout::{make_bindings, run_outcome, usable_interfaces, FailureKind, TaskError};
use multicaster::wire::{decode, encode, ConnectionInfo};
use multicaster::loops::{
    announcer_step, listener_step, AnnouncerAction, AnnouncerEvent, AnnouncerState,
    ListenerAction, ListenerEvent, ListenerState, ANNOUNCE_INTERVAL_SECS, RECV_BUFFER_LEN,
};

fn ip(a: u8, b: u8, c: u8, d: u8) -> Ipv4Address {
    Ipv4Address::new(a, b, c, d)
}

#[test]
fn address_predicates() {
    assert!(Ipv4Address::unspecified().is_unspecified());
    assert!(!ip(10, 0, 0, 5).is_unspecified());
    assert!(ip(169, 254, 1, 1).is_link_local());
    assert!(!ip(169, 253, 1, 1).is_link_local());
    assert!(ip(239, 0, 0, 123).is_multicast());
    assert!(ip(224, 0, 0, 1).is_multicast());
    assert!(!ip(192, 168, 0, 1).is_multicast());
}

#[test]
fn link_local_interfaces_are_excluded() {
    let discovered = vec![
        ip(192, 168, 1, 10),
        ip(169, 254, 7, 9),
        ip(10, 0, 0, 5),
        ip(169, 254, 0, 1),
    ];
    let usable = usable_interfaces(&discovered);
    assert_eq!(usable, vec![ip(192, 168, 1, 10), ip(10, 0, 0, 5)]);
}

#[test]
fn empty_interface_list_is_valid() {
    let usable = usable_interfaces(&Vec::new());
    assert!(usable.is_empty());
    let bindings = make_bindings(&usable, ip(239, 0, 0, 123), 6772);
    assert!(bindings.is_empty());
}

#[test]
fn one_binding_per_interface() {
    let interfaces = vec![ip(10, 0, 0, 5), ip(192, 168, 1, 10)];
    let group = ip(239, 0, 0, 123);
    let bindings = make_bindings(&interfaces, group, 6772);
    assert_eq!(bindings.len(), 2);
    for (k, binding) in bindings.iter().enumerate() {
        assert_eq!(binding.broadcast_interface, interfaces[k]);
        assert_eq!(binding.broadcast_group, group);
        assert_eq!(binding.broadcast_port, 6772);
    }
}

#[test]
fn sender_plan_steps() {
    let iface = ip(10, 0, 0, 5);
    let group = ip(239, 0, 0, 123);
    let d = Discovery::new(iface, group, 6772);
    let plan = d.sender_plan();
    assert_eq!(
        plan,
        vec![
            SetupStep::BindEphemeral { interface: iface },
            SetupStep::SetOutboundInterface { interface: iface },
            SetupStep::JoinGroup { group, interface: iface },
            SetupStep::SetMulticastTtl { ttl: DEFAULT_MULTICAST_TTL },
        ]
    );
    assert!(DEFAULT_MULTICAST_TTL > 1);
}

#[test]
fn receiver_plan_steps() {
    let iface = ip(0, 0, 0, 0);
    let group = ip(239, 0, 0, 123);
    let d = Discovery::new(iface, group, 6772);
    let plan = d.receiver_plan();
    assert_eq!(
        plan,
        vec![
            SetupStep::AcquirePermit,
            SetupStep::BindPort { interface: iface, port: 6772 },
            SetupStep::SetReuseAddress,
            SetupStep::EnableBroadcast,
            SetupStep::SetOutboundInterface { interface: iface },
            SetupStep::JoinGroup { group, interface: iface },
            SetupStep::ReleasePermit,
        ]
    );
    // address reuse is configured inside the permit section, right after
    // the bind, so back-to-back listeners can share the rendezvous port
    assert_eq!(plan[0], SetupStep::AcquirePermit);
    assert!(matches!(plan[1], SetupStep::BindPort { .. }));
    assert_eq!(plan[2], SetupStep::SetReuseAddress);
    assert_eq!(plan[plan.len() - 1], SetupStep::ReleasePermit);
}

#[test]
fn first_failure_wins() {
    let a = ip(10, 0, 0, 1);
    let b = ip(10, 0, 0, 2);
    let err_b = TaskError {
        interface: b,
        kind: FailureKind::Setup { step: SetupStep::SetReuseAddress },
    };
    let err_a = TaskError { interface: a, kind: FailureKind::Send };
    // task B failed immediately, so its result completed first
    let results = vec![Err(err_b), Ok(()), Ok(())];
    assert_eq!(run_outcome(&results), Err(err_b));
    // the first error in completion order wins over later ones
    let results = vec![Ok(()), Err(err_a), Err(err_b)];
    assert_eq!(run_outcome(&results), Err(err_a));
}

#[test]
fn all_tasks_succeeding_is_success() {
    assert_eq!(run_outcome(&vec![Ok(()), Ok(()), Ok(())]), Ok(()));
}

#[test]
fn empty_fanout_completes_successfully() {
    assert_eq!(run_outcome(&Vec::new()), Ok(()));
}

#[test]
fn coordinator_serializes_ten_setups() {
    // ten listener tasks try to run their bind-and-configure sections in
    // an adversarial interleaving; no two may ever hold the permit at once
    let mut gate = BindCoordinator::new();
    let mut done = [false; 10];
    let mut inside: Option<usize> = None;
    let mut completed = 0;
    while completed < 10 {
        for t in 0..10 {
            if done[t] || inside == Some(t) {
                continue;
            }
            if gate.try_acquire(t) {
                // nobody else may be in a critical section now
                assert_eq!(inside, None);
                inside = Some(t);
            } else {
                assert!(inside.is_some());
            }
        }
        // the holder finishes its section and releases
        let t = inside.take().expect("some task must have entered");
        assert!(gate.is_held());
        gate.release(t);
        assert!(!gate.is_held());
        done[t] = true;
        completed += 1;
    }
    assert!(done.iter().all(|d| *d));
}

#[test]
fn announcer_cycle() {
    let (s, a) = announcer_step(AnnouncerState::Idle, AnnouncerEvent::SetupOk);
    assert_eq!((s, a), (AnnouncerState::Bound, AnnouncerAction::SendDatagram));
    let (s, a) = announcer_step(s, AnnouncerEvent::SendOk);
    assert_eq!((s, a), (AnnouncerState::Announcing, AnnouncerAction::Sleep));
    // one datagram per interval: wake, send, sleep, forever
    let (s, a) = announcer_step(s, AnnouncerEvent::Woke);
    assert_eq!((s, a), (AnnouncerState::Announcing, AnnouncerAction::SendDatagram));
    let (s, a) = announcer_step(s, AnnouncerEvent::SendOk);
    assert_eq!((s, a), (AnnouncerState::Announcing, AnnouncerAction::Sleep));
    assert_eq!(ANNOUNCE_INTERVAL_SECS, 5);
}

#[test]
fn announcer_failures_halt() {
    let (s, a) = announcer_step(AnnouncerState::Idle, AnnouncerEvent::SetupFailed);
    assert_eq!((s, a), (AnnouncerState::Failed, AnnouncerAction::Halt));
    let (s, a) = announcer_step(AnnouncerState::Announcing, AnnouncerEvent::SendFailed);
    assert_eq!((s, a), (AnnouncerState::Failed, AnnouncerAction::Halt));
}

#[test]
fn listener_reports_and_skips() {
    let (s, a) = listener_step(ListenerState::Idle, ListenerEvent::SetupOk);
    assert_eq!((s, a), (ListenerState::Bound, ListenerAction::AwaitDatagram));
    let (s, a) = listener_step(s, ListenerEvent::Received { well_formed: true });
    assert_eq!((s, a), (ListenerState::Listening, ListenerAction::ReportAndAwait));
    // a malformed datagram is skipped, not fatal
    let (s, a) = listener_step(s, ListenerEvent::Received { well_formed: false });
    assert_eq!((s, a), (ListenerState::Listening, ListenerAction::AwaitDatagram));
    let (s, a) = listener_step(s, ListenerEvent::ReceiveFailed);
    assert_eq!((s, a), (ListenerState::Failed, ListenerAction::Halt));
}

#[test]
fn end_to_end_announce_and_decode() {
    // announcer on 10.0.0.5 advertising svc.local:1234 to 239.0.0.123:6772
    let iface = ip(10, 0, 0, 5);
    let d = Discovery::new(iface, ip(239, 0, 0, 123), 6772);
    let payload = encode(&ConnectionInfo::new(iface, b"svc.local".to_vec(), 1234));
    assert!(payload.len() <= RECV_BUFFER_LEN);
    assert_eq!(
        multicaster::wire::socket_addr_text(d.broadcast_group, d.broadcast_port),
        b"239.0.0.123:6772".to_vec()
    );
    // the listener receives the datagram bytes and decodes them
    let received = payload.clone();
    let info = decode(&received).expect("the announcement must decode");
    assert_eq!(info.sender, iface);
    assert_eq!(info.host, b"svc.local".to_vec());
    assert_eq!(info.port, 1234);
}
