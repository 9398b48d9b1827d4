use aquamarine::effects::{route, split_loopback, Outbound};
use aquamarine::particle::Particle;
use aquamarine::registry::{FunctionRegistry, Registration};

fn particle(data: &[u8]) -> Particle {
    Particle {
        id: "p".to_string(),
        init_peer_id: "client".to_string(),
        timestamp: 0,
        ttl: 1000,
        script: "(null)".to_string(),
        signature: vec![],
        data: data.to_vec(),
    }
}

#[test]
fn route_keeps_interpreter_order_and_loops_back_local() {
    let peers = vec!["B".to_string(), "A".to_string(), "C".to_string(), "B".to_string()];
    let out = route(&particle(b"d"), &peers, &"A".to_string());
    assert_eq!(out.len(), 4);
    match &out[0] {
        Outbound::Send { peer_id, particle } => {
            assert_eq!(peer_id, "B");
            assert_eq!(particle.data, b"d".to_vec());
        }
        _ => panic!("expected a send"),
    }
    assert!(matches!(&out[1], Outbound::Loopback(p) if p.data == b"d".to_vec()));
    assert!(matches!(&out[2], Outbound::Send { peer_id, .. } if peer_id == "C"));
    assert!(matches!(&out[3], Outbound::Send { peer_id, .. } if peer_id == "B"));

    let (local, remote) = split_loopback(out);
    assert_eq!(local.len(), 1);
    assert_eq!(remote.len(), 3);
    assert!(matches!(&remote[1], Outbound::Send { peer_id, .. } if peer_id == "C"));
}

#[test]
fn route_with_no_next_peers_sends_nothing() {
    let out = route(&particle(b""), &vec![], &"A".to_string());
    assert!(out.is_empty());
}

fn reg(service: &str, function: Option<&str>, handler: u64) -> Registration {
    Registration {
        service_id: service.to_string(),
        function_name: function.map(|f| f.to_string()),
        handler,
    }
}

#[test]
fn registry_prefers_exact_function_then_fallback() {
    let mut r = FunctionRegistry::new();
    assert!(r.register(reg("op", Some("identity"), 1)));
    assert!(r.register(reg("op", None, 2)));
    assert!(!r.register(reg("op", Some("identity"), 3)));
    assert_eq!(r.resolve(&"op".to_string(), &"identity".to_string()), Some(1));
    assert_eq!(r.resolve(&"op".to_string(), &"noop".to_string()), Some(2));
    assert_eq!(r.resolve(&"math".to_string(), &"add".to_string()), None);
}

#[test]
fn registry_without_fallback_leaves_other_names_undefined() {
    let mut r = FunctionRegistry::new();
    assert!(r.register(reg("srv", Some("list"), 4)));
    assert_eq!(r.resolve(&"srv".to_string(), &"list".to_string()), Some(4));
    assert_eq!(r.resolve(&"srv".to_string(), &"create".to_string()), None);
}
