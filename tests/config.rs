use aquamarine::dir_config::{join_path, UnresolvedDirConfig};
use aquamarine::events::InEvent;

#[test]
fn resolve_fills_defaults_under_base() {
    let config = UnresolvedDirConfig {
        base_dir: "/var/node".to_string(),
        certificate_dir: None,
        services_base_dir: Some("/srv/services".to_string()),
        stepper_base_dir: None,
        air_interpreter_path: None,
    };
    let r = config.resolve();
    assert_eq!(r.base_dir, "/var/node");
    assert_eq!(r.certificate_dir, "/var/node/certificates");
    assert_eq!(r.services_base_dir, "/srv/services");
    assert_eq!(r.stepper_base_dir, "/var/node/stepper");
    assert_eq!(r.air_interpreter_path, "/var/node/aquamarine.wasm");
    assert_eq!(
        r.dirs_to_create(),
        vec![
            "/var/node".to_string(),
            "/var/node/certificates".to_string(),
            "/var/node/stepper".to_string()
        ]
    );
}

#[test]
fn join_path_adds_one_separator() {
    assert_eq!(join_path(&"/a/".to_string(), "b"), "/a/b");
    assert_eq!(join_path(&"/a".to_string(), "b"), "/a/b");
    assert_eq!(join_path(&"".to_string(), "b"), "b");
}

#[test]
fn default_in_event_is_empty_network_state() {
    match InEvent::default() {
        InEvent::NetworkState { state } => assert!(state.is_empty()),
        _ => panic!("expected a network state"),
    }
}
