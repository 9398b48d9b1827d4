use aquamarine::layout::{anomaly_dir, decimal_string, is_anomaly, prev_data_path, vault_dir};
use aquamarine::stats::InterpretationStats;

#[test]
fn decimal_text() {
    assert_eq!(decimal_string(0), "0");
    assert_eq!(decimal_string(7), "7");
    assert_eq!(decimal_string(10), "10");
    assert_eq!(decimal_string(1234), "1234");
    assert_eq!(decimal_string(u64::MAX), u64::MAX.to_string());
}

#[test]
fn persisted_layout_paths() {
    let root = "/data".to_string();
    assert_eq!(vault_dir(&root, &"echo".to_string()), "/data/vault/echo");
    assert_eq!(
        prev_data_path(&root, &"12D3Koo".to_string(), &"echo".to_string()),
        "/data/prev_data/12D3Koo/echo"
    );
    assert_eq!(anomaly_dir(&"/data/".to_string(), 1700, &"echo".to_string()), "/data/anomaly/1700-echo");
}

#[test]
fn anomalies_are_failures_and_nonzero_codes() {
    let ok = InterpretationStats { success: true, took_ms: 1, memory: 0, ret_code: 0 };
    assert!(!is_anomaly(&ok));
    assert!(is_anomaly(&InterpretationStats { ret_code: 1, ..ok }));
    assert!(is_anomaly(&InterpretationStats { success: false, ..ok }));
}
