use aquamarine::particle::{ActorKey, Particle};
use aquamarine::plumber::{Completion, Plumber, Rejected};

fn particle(id: &str, timestamp: u64, ttl: u32, data: &[u8]) -> Particle {
    Particle {
        id: id.to_string(),
        init_peer_id: "client".to_string(),
        timestamp,
        ttl,
        script: "(null)".to_string(),
        signature: vec![],
        data: data.to_vec(),
    }
}

fn key(id: &str, peer: &str) -> ActorKey {
    ActorKey::new(id.to_string(), peer.to_string())
}

#[test]
fn ingest_creates_actor_and_poll_starts_run() {
    let peer = "A".to_string();
    let mut p = Plumber::new(10);
    assert_eq!(p.ingest(particle("echo", 1000, 10_000, b"x"), &peer, 1001), Ok(()));
    assert_eq!(p.actor_count(), 1);
    assert_eq!(p.pending(&key("echo", "A")), 1);
    let polled = p.poll(1002);
    assert_eq!(polled.executions.len(), 1);
    assert_eq!(polled.executions[0].coalesced, 1);
    assert_eq!(polled.executions[0].particle.data, b"x".to_vec());
    assert!(p.is_busy(&key("echo", "A")));
    assert_eq!(p.pending(&key("echo", "A")), 0);
    assert_eq!(p.metrics().accepted, 1);
}

#[test]
fn burst_of_five_arrivals_gives_two_runs() {
    let peer = "A".to_string();
    let mut p = Plumber::new(10);
    p.ingest(particle("echo", 0, 10_000, b"d"), &peer, 1).unwrap();
    let first = p.poll(1);
    assert_eq!(first.executions.len(), 1);
    for _ in 0..4 {
        p.ingest(particle("echo", 0, 10_000, b"d"), &peer, 1).unwrap();
    }
    // nothing new starts while the first run is in flight
    assert_eq!(p.poll(1).executions.len(), 0);
    assert_eq!(p.complete(&key("echo", "A"), 2), Completion::Applied);
    let second = p.poll(2);
    assert_eq!(second.executions.len(), 1);
    assert_eq!(second.executions[0].coalesced, 4);
    assert_eq!(p.complete(&key("echo", "A"), 3), Completion::Applied);
    assert_eq!(p.poll(3).executions.len(), 0);
    assert_eq!(p.actor_count(), 0);
}

#[test]
fn latest_arrival_supersedes() {
    let peer = "A".to_string();
    let mut p = Plumber::new(10);
    p.ingest(particle("echo", 0, 10_000, b"old"), &peer, 1).unwrap();
    p.ingest(particle("echo", 0, 10_000, b"new"), &peer, 1).unwrap();
    let polled = p.poll(1);
    assert_eq!(polled.executions.len(), 1);
    assert_eq!(polled.executions[0].coalesced, 2);
    assert_eq!(polled.executions[0].particle.data, b"new".to_vec());
}

#[test]
fn expired_on_arrival_is_rejected() {
    let peer = "A".to_string();
    let mut p = Plumber::new(10);
    let now = 100_000;
    let r = p.ingest(particle("late", now - 30_000, 10_000, b""), &peer, now);
    assert_eq!(r, Err(Rejected::Expired));
    assert_eq!(p.metrics().expired, 1);
    assert_eq!(p.metrics().accepted, 0);
    assert_eq!(p.actor_count(), 0);
    assert_eq!(p.poll(now).executions.len(), 0);
}

#[test]
fn arrival_exactly_at_deadline_is_expired() {
    let peer = "A".to_string();
    let mut p = Plumber::new(10);
    assert_eq!(p.ingest(particle("p", 100, 50, b""), &peer, 150), Err(Rejected::Expired));
    assert_eq!(p.ingest(particle("p", 100, 50, b""), &peer, 149), Ok(()));
}

#[test]
fn admission_limit_counts_actors() {
    let peer = "A".to_string();
    let mut p = Plumber::new(1);
    assert_eq!(p.ingest(particle("a", 0, 1000, b""), &peer, 1), Ok(()));
    assert_eq!(p.ingest(particle("b", 0, 1000, b""), &peer, 1), Err(Rejected::AdmissionLimit));
    // the same key joins its actor
    assert_eq!(p.ingest(particle("a", 0, 1000, b""), &peer, 1), Ok(()));
    assert_eq!(p.metrics().limited, 1);
    assert_eq!(p.metrics().accepted, 2);
}

#[test]
fn zero_admission_limit_rejects_everything() {
    let peer = "A".to_string();
    let mut p = Plumber::new(0);
    assert_eq!(p.ingest(particle("a", 0, 1000, b""), &peer, 1), Err(Rejected::AdmissionLimit));
}

#[test]
fn keys_differ_by_peer() {
    let mut p = Plumber::new(10);
    p.ingest(particle("a", 0, 1000, b""), &"A".to_string(), 1).unwrap();
    p.ingest(particle("a", 0, 1000, b""), &"B".to_string(), 1).unwrap();
    assert_eq!(p.actor_count(), 2);
    let polled = p.poll(2);
    assert_eq!(polled.executions.len(), 2);
    assert_eq!(polled.executions[0].key.peer_id, "A");
    assert_eq!(polled.executions[1].key.peer_id, "B");
}

#[test]
fn idle_expired_actor_retires_on_poll() {
    let peer = "A".to_string();
    let mut p = Plumber::new(10);
    p.ingest(particle("a", 0, 100, b""), &peer, 1).unwrap();
    let polled = p.poll(100);
    assert_eq!(polled.executions.len(), 0);
    assert_eq!(polled.expired.len(), 1);
    assert_eq!(polled.expired[0].particle_id, "a");
    assert_eq!(p.actor_count(), 0);
}

#[test]
fn result_of_expired_run_is_discarded() {
    let peer = "A".to_string();
    let mut p = Plumber::new(10);
    p.ingest(particle("a", 0, 100, b""), &peer, 1).unwrap();
    assert_eq!(p.poll(2).executions.len(), 1);
    // a busy actor stays past its deadline until its run ends
    assert_eq!(p.poll(500).expired.len(), 0);
    assert_eq!(p.complete(&key("a", "A"), 500), Completion::Discarded);
    assert_eq!(p.actor_count(), 0);
}

#[test]
fn complete_without_run_is_unknown() {
    let peer = "A".to_string();
    let mut p = Plumber::new(10);
    assert_eq!(p.complete(&key("a", "A"), 1), Completion::Unknown);
    p.ingest(particle("a", 0, 100, b""), &peer, 1).unwrap();
    assert_eq!(p.complete(&key("a", "A"), 1), Completion::Unknown);
    assert_eq!(p.pending(&key("a", "A")), 1);
}
