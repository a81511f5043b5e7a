use deet::connection::probe_verdict;
use deet::connection::select_healthy;
use deet::connection::ConnectionConfig;

fn addrs(list: &[&str]) -> Vec<String> {
    list.iter().map(|s| s.to_string()).collect()
}

fn config(max: usize, upstream: &[&str]) -> ConnectionConfig {
    ConnectionConfig::new(10, String::from("/health"), max, addrs(upstream))
}

#[test]
fn test_new_starts_all_healthy() {
    let c = config(0, &["a:1", "b:2"]);
    assert_eq!(c.active_health_check_interval(), 10);
    assert_eq!(c.active_health_check_path(), "/health");
    assert_eq!(c.upstream_addresses(), &addrs(&["a:1", "b:2"]));
    assert_eq!(c.success_addresses(), &addrs(&["a:1", "b:2"]));
}

#[test]
fn test_record_request_window() {
    let mut c = config(2, &["a:1"]);
    assert!(c.record_request(0));
    assert!(c.record_request(10));
    // the window limit is reached
    assert!(!c.record_request(20));
    // a minute later the window resets and admits again
    assert!(c.record_request(61));
    assert!(c.record_request(62));
    assert!(!c.record_request(63));
}

#[test]
fn test_record_request_unlimited() {
    let mut c = config(0, &["a:1"]);
    for now in 0..100 {
        assert!(c.record_request(now));
    }
}

#[test]
fn test_choose_and_remove_upstream() {
    let mut c = config(0, &["a:1", "b:2"]);
    let (idx, addr) = c.choose_upstream().unwrap();
    assert!(idx < 2);
    assert_eq!(&addr, &c.success_addresses()[idx]);
    c.remove_upstream(idx);
    assert_eq!(c.success_addresses().len(), 1);
    let (idx, _) = c.choose_upstream().unwrap();
    assert_eq!(idx, 0);
    c.remove_upstream(0);
    assert!(c.choose_upstream().is_none());
}

#[test]
fn test_update_success_keeps_old_on_empty_sweep() {
    let mut c = config(0, &["a:1", "b:2"]);
    c.update_success(Vec::new());
    assert_eq!(c.success_addresses().len(), 2);
    c.update_success(addrs(&["b:2"]));
    assert_eq!(c.success_addresses(), &addrs(&["b:2"]));
}

#[test]
fn test_select_healthy_filters_in_order() {
    let a = addrs(&["a:1", "b:2", "c:3"]);
    let flags = vec![true, false, true];
    assert_eq!(select_healthy(&a, &flags), addrs(&["a:1", "c:3"]));
    let none = vec![false, false, false];
    assert!(select_healthy(&a, &none).is_empty());
}

#[test]
fn test_probe_verdict() {
    assert!(probe_verdict(Some(200)));
    assert!(!probe_verdict(Some(404)));
    assert!(!probe_verdict(Some(500)));
    assert!(!probe_verdict(None));
}
