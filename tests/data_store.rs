use aquamarine::data_store::ParticleDataStore;
use aquamarine::particle::ActorKey;
use aquamarine::stats::{prepare_prev_data, StoreRead};

fn key(id: &str, peer: &str) -> ActorKey {
    ActorKey::new(id.to_string(), peer.to_string())
}

#[test]
fn absent_key_reads_none() {
    let store = ParticleDataStore::new();
    assert_eq!(store.get(&key("p", "A")), None);
    assert_eq!(store.len(), 0);
}

#[test]
fn put_replaces_whole_blob() {
    let mut store = ParticleDataStore::new();
    store.put(key("p", "A"), vec![1, 2, 3]);
    assert_eq!(store.get(&key("p", "A")), Some(vec![1, 2, 3]));
    store.put(key("p", "A"), vec![9]);
    assert_eq!(store.get(&key("p", "A")), Some(vec![9]));
    assert_eq!(store.len(), 1);
    store.put(key("p", "B"), vec![7]);
    assert_eq!(store.get(&key("p", "A")), Some(vec![9]));
    assert_eq!(store.get(&key("p", "B")), Some(vec![7]));
    assert_eq!(store.len(), 2);
}

#[test]
fn remove_prev_drops_only_its_key() {
    let mut store = ParticleDataStore::new();
    store.put(key("p", "A"), vec![1]);
    store.put(key("q", "A"), vec![2]);
    store.remove_prev(&key("p", "A"));
    assert_eq!(store.get(&key("p", "A")), None);
    assert_eq!(store.get(&key("q", "A")), Some(vec![2]));
    store.remove_prev(&key("p", "A"));
    assert_eq!(store.len(), 1);
}

#[test]
fn read_failure_runs_from_empty_blob() {
    let input = prepare_prev_data(StoreRead::Failed);
    assert!(input.prev_data.is_empty());
    assert!(input.read_failed);
    let input = prepare_prev_data(StoreRead::Absent);
    assert!(input.prev_data.is_empty());
    assert!(!input.read_failed);
    let input = prepare_prev_data(StoreRead::Found(vec![5, 6]));
    assert_eq!(input.prev_data, vec![5, 6]);
    assert!(!input.read_failed);
}
