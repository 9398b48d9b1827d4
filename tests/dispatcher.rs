use aquamarine::dispatcher::{Dispatcher, Interpretation};
use aquamarine::effects::{CallRequest, Outbound};
use aquamarine::registry::{Registration, ResolvedCall};
use aquamarine::particle::{ActorKey, Particle};
use aquamarine::plumber::{Completion, Rejected};
use aquamarine::vm_pool::RunOutcome;

fn particle(id: &str, init: &str, timestamp: u64, ttl: u32) -> Particle {
    Particle {
        id: id.to_string(),
        init_peer_id: init.to_string(),
        timestamp,
        ttl,
        script: "(call %init_peer_id% (\"op\" \"identity\") [\"hello\"])".to_string(),
        signature: vec![],
        data: vec![],
    }
}

fn returned(new_data: &[u8], next_peers: &[&str]) -> Interpretation {
    Interpretation::Returned {
        ret_code: 0,
        new_data: new_data.to_vec(),
        next_peers: next_peers.iter().map(|p| p.to_string()).collect(),
        call_requests: vec![],
    }
}

#[test]
fn local_echo_loops_back() {
    let mut a = Dispatcher::new("A".to_string(), 2, 16);
    a.on_particle(particle("echo", "A", 0, 10_000), 1).unwrap();
    let tick = a.tick(1);
    assert_eq!(tick.launches.len(), 1);
    let launch = tick.launches.into_iter().next().unwrap();
    assert!(launch.create);
    assert!(launch.prev_data.is_empty());
    let done = a.on_finished(launch.execution, launch.slot, returned(b"hello", &["A"]), 3, 64, 2);
    assert_eq!(done.completion, Completion::Applied);
    assert!(done.sends.is_empty());
    assert!(done.stats.success);
    assert_eq!(done.stats.ret_code, 0);
    assert_eq!(done.stats.took_ms, 3);
    // the loopback is admitted again and runs on the next tick with the stored data
    let tick = a.tick(3);
    assert_eq!(tick.launches.len(), 1);
    assert_eq!(tick.launches[0].execution.particle.data, b"hello".to_vec());
    assert_eq!(tick.launches[0].prev_data, b"hello".to_vec());
    assert!(!tick.launches[0].create);
}

fn hop(node: &mut Dispatcher, p: Particle, next: &[&str], data: &[u8], now: u64) -> Vec<Outbound> {
    node.on_particle(p, now).unwrap();
    let tick = node.tick(now);
    assert_eq!(tick.launches.len(), 1);
    let launch = tick.launches.into_iter().next().unwrap();
    let done = node.on_finished(launch.execution, launch.slot, returned(data, next), 1, 1, now);
    assert_eq!(done.completion, Completion::Applied);
    done.sends
}

#[test]
fn two_hop_routing() {
    let mut a = Dispatcher::new("A".to_string(), 1, 16);
    let mut b = Dispatcher::new("B".to_string(), 1, 16);
    let mut c = Dispatcher::new("C".to_string(), 1, 16);
    let sends = hop(&mut a, particle("relay", "client", 0, 10_000), &["B"], b"a", 1);
    assert_eq!(sends.len(), 1);
    let p = match sends.into_iter().next().unwrap() {
        Outbound::Send { peer_id, particle } => {
            assert_eq!(peer_id, "B");
            particle
        }
        Outbound::Loopback(_) => panic!("expected a send"),
    };
    let sends = hop(&mut b, p, &["C"], b"ab", 2);
    assert_eq!(sends.len(), 1);
    let p = match sends.into_iter().next().unwrap() {
        Outbound::Send { peer_id, particle } => {
            assert_eq!(peer_id, "C");
            particle
        }
        Outbound::Loopback(_) => panic!("expected a send"),
    };
    assert_eq!(p.data, b"ab".to_vec());
    let sends = hop(&mut c, p, &[], b"abc", 3);
    assert!(sends.is_empty());
    for (node, peer, data) in [(&a, "A", b"a".to_vec()), (&b, "B", b"ab".to_vec()), (&c, "C", b"abc".to_vec())] {
        assert_eq!(node.stored_count(), 1);
        let key = ActorKey::new("relay".to_string(), peer.to_string());
        assert_eq!(node.prev_data(&key), Some(data));
    }
}

#[test]
fn burst_while_running_gives_one_more_run() {
    let mut a = Dispatcher::new("A".to_string(), 4, 16);
    a.on_particle(particle("echo", "A", 0, 10_000), 1).unwrap();
    let tick = a.tick(1);
    assert_eq!(tick.launches.len(), 1);
    for _ in 0..4 {
        a.on_particle(particle("echo", "A", 0, 10_000), 1).unwrap();
    }
    assert_eq!(a.tick(1).launches.len(), 0);
    let launch = tick.launches.into_iter().next().unwrap();
    a.on_finished(launch.execution, launch.slot, returned(b"x", &[]), 1, 1, 2);
    let tick = a.tick(2);
    assert_eq!(tick.launches.len(), 1);
    assert_eq!(tick.launches[0].execution.coalesced, 4);
}

#[test]
fn expired_on_arrival_takes_no_slot() {
    let mut a = Dispatcher::new("A".to_string(), 1, 16);
    let now = 100_000;
    assert_eq!(
        a.on_particle(particle("late", "A", now - 30_000, 10_000), now),
        Err(Rejected::Expired)
    );
    assert!(a.tick(now).launches.is_empty());
    assert_eq!(a.metrics().expired, 1);
    assert_eq!(a.metrics().accepted, 0);
}

#[test]
fn timeout_quarantines_slot_and_retries() {
    let mut a = Dispatcher::new("A".to_string(), 1, 16);
    a.on_particle(particle("looping", "A", 0, 1000), 1).unwrap();
    let launch = a.tick(1).launches.into_iter().next().unwrap();
    // another arrival waits for the retry
    a.on_particle(particle("looping", "A", 0, 1000), 2).unwrap();
    let done = a.on_finished(
        launch.execution,
        launch.slot,
        Interpretation::Aborted(RunOutcome::Timeout),
        500,
        0,
        3,
    );
    assert!(done.quarantined);
    assert!(!done.stats.success);
    assert_eq!(done.stats.ret_code, -1);
    // the only slot is quarantined: the retry waits
    assert!(a.tick(4).launches.is_empty());
    a.restore_slot(0);
    let tick = a.tick(5);
    assert_eq!(tick.launches.len(), 1);
    assert!(tick.launches[0].prev_data.is_empty());
}

#[test]
fn run_past_deadline_is_dropped_before_start() {
    let mut a = Dispatcher::new("A".to_string(), 1, 16);
    a.on_particle(particle("x", "A", 0, 10_000), 1).unwrap();
    let first = a.tick(1).launches.into_iter().next().unwrap();
    a.on_particle(particle("y", "A", 0, 100), 2).unwrap();
    // "y" cannot start: the only slot is busy
    assert!(a.tick(3).launches.is_empty());
    a.on_finished(first.execution, first.slot, returned(b"", &[]), 1, 1, 4);
    let tick = a.tick(200);
    assert!(tick.launches.is_empty());
    assert_eq!(tick.expired.len(), 1);
    assert_eq!(tick.expired[0].particle_id, "y");
}

#[test]
fn failed_run_keeps_prev_data() {
    let mut a = Dispatcher::new("A".to_string(), 1, 16);
    a.on_particle(particle("recovery", "A", 0, 10_000), 1).unwrap();
    let l = a.tick(1).launches.into_iter().next().unwrap();
    a.on_particle(particle("recovery", "A", 0, 10_000), 1).unwrap();
    a.on_finished(l.execution, l.slot, returned(b"v1", &[]), 1, 1, 2);
    let l = a.tick(2).launches.into_iter().next().unwrap();
    assert_eq!(l.prev_data, b"v1".to_vec());
    a.on_particle(particle("recovery", "A", 0, 10_000), 2).unwrap();
    let done = a.on_finished(
        l.execution,
        l.slot,
        Interpretation::Aborted(RunOutcome::FatalInternal),
        1,
        1,
        3,
    );
    assert!(done.quarantined);
    a.restore_slot(0);
    let l = a.tick(3).launches.into_iter().next().unwrap();
    assert_eq!(l.prev_data, b"v1".to_vec());
}

#[test]
fn nonzero_return_code_is_soft_failure() {
    let mut a = Dispatcher::new("A".to_string(), 1, 16);
    a.on_particle(particle("p", "A", 0, 10_000), 1).unwrap();
    let l = a.tick(1).launches.into_iter().next().unwrap();
    let done = a.on_finished(
        l.execution,
        l.slot,
        Interpretation::Returned {
            ret_code: 3,
            new_data: vec![1],
            next_peers: vec!["B".to_string()],
            call_requests: vec![],
        },
        1,
        1,
        2,
    );
    assert!(!done.stats.success);
    assert_eq!(done.stats.ret_code, 3);
    assert!(!done.quarantined);
    assert_eq!(done.sends.len(), 1);
}

#[test]
fn lost_prev_data_restarts_from_empty_then_recovers() {
    let mut a = Dispatcher::new("A".to_string(), 1, 16);
    let key = ActorKey::new("recovery".to_string(), "A".to_string());
    a.on_particle(particle("recovery", "A", 0, 10_000), 1).unwrap();
    let l = a.tick(1).launches.into_iter().next().unwrap();
    a.on_particle(particle("recovery", "A", 0, 10_000), 1).unwrap();
    a.on_finished(l.execution, l.slot, returned(b"v1", &[]), 1, 1, 2);
    // persisting "v1" failed
    a.discard_prev_data(&key);
    assert_eq!(a.prev_data(&key), None);
    let l = a.tick(2).launches.into_iter().next().unwrap();
    assert!(l.prev_data.is_empty());
    a.on_particle(particle("recovery", "A", 0, 10_000), 2).unwrap();
    a.on_finished(l.execution, l.slot, returned(b"v2", &[]), 1, 1, 3);
    let l = a.tick(3).launches.into_iter().next().unwrap();
    assert_eq!(l.prev_data, b"v2".to_vec());
}

#[test]
fn runs_beyond_free_slots_wait() {
    let mut a = Dispatcher::new("A".to_string(), 2, 16);
    for id in ["x", "y", "z"] {
        a.on_particle(particle(id, "A", 0, 10_000), 1).unwrap();
    }
    let tick = a.tick(1);
    assert_eq!(tick.launches.len(), 2);
    assert_ne!(tick.launches[0].slot, tick.launches[1].slot);
    assert_eq!(tick.launches[0].execution.particle.id, "x");
    assert_eq!(tick.launches[1].execution.particle.id, "y");
    assert_eq!(a.waiting_count(), 1);
    let first = tick.launches.into_iter().next().unwrap();
    a.on_finished(first.execution, first.slot, returned(b"", &[]), 1, 1, 2);
    let tick = a.tick(2);
    assert_eq!(tick.launches.len(), 1);
    assert_eq!(tick.launches[0].execution.particle.id, "z");
    assert_eq!(a.waiting_count(), 0);
}

#[test]
fn host_calls_resolve_against_registered_functions() {
    let mut a = Dispatcher::new("A".to_string(), 1, 16);
    let identity = Registration {
        service_id: "op".to_string(),
        function_name: Some("identity".to_string()),
        handler: 0,
    };
    assert!(a.register_function(identity));
    a.on_particle(particle("echo", "A", 0, 10_000), 1).unwrap();
    let l = a.tick(1).launches.into_iter().next().unwrap();
    let call = |id: u32, service: &str, function: &str| CallRequest {
        call_id: id,
        service_id: service.to_string(),
        function_name: function.to_string(),
        arguments: "[\"hello\"]".to_string(),
    };
    let result = Interpretation::Returned {
        ret_code: 0,
        new_data: b"d".to_vec(),
        next_peers: vec![],
        call_requests: vec![call(1, "op", "identity"), call(2, "op", "noop")],
    };
    let done = a.on_finished(l.execution, l.slot, result, 1, 1, 2);
    assert_eq!(
        done.calls,
        vec![
            ResolvedCall { call_id: 1, handler: Some(0) },
            ResolvedCall { call_id: 2, handler: None }
        ]
    );
    assert!(done.sends.is_empty());
}
