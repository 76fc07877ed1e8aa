use ports_manager::port_finder::find_available_port;
use ports_manager::port_finder::find_available_port_in_range;

// The host probe is injected, so these tests drive the scan with
// deterministic probes instead of binding real sockets.

#[test]
fn test_find_available_port_no_exclusions() {
    let result = find_available_port(&[], |_p: u16| true);
    assert!(result.is_some());
    let port = result.unwrap();
    assert!(port >= 8000);
}

#[test]
fn test_find_available_port_with_exclusions() {
    let exclude = vec![8000, 8001, 8002];
    let result = find_available_port(&exclude, |_p: u16| true);
    assert!(result.is_some());
    let port = result.unwrap();
    assert!(!exclude.contains(&port));
    assert!(port >= 8000);
}

#[test]
fn test_find_available_port_in_range_small_range() {
    let result = find_available_port_in_range(9000, 9010, &[], |_p: u16| true);
    assert!(result.is_some());
    let port = result.unwrap();
    assert!(port >= 9000);
    assert!(port <= 9010);
}

#[test]
fn test_find_available_port_in_range_with_exclusions() {
    let exclude = vec![9000, 9001, 9002];
    let result = find_available_port_in_range(9000, 9010, &exclude, |_p: u16| true);
    assert!(result.is_some());
    let port = result.unwrap();
    assert!(!exclude.contains(&port));
    assert!(port >= 9003);
    assert!(port <= 9010);
}

#[test]
fn test_find_available_port_in_range_single_port() {
    let result = find_available_port_in_range(9500, 9500, &[], |_p: u16| true);
    // May or may not find a port depending on system state
    if let Some(port) = result {
        assert_eq!(port, 9500);
    }
}

#[test]
fn test_find_available_port_in_range_all_excluded() {
    let exclude = vec![9100, 9101, 9102];
    let result = find_available_port_in_range(9100, 9102, &exclude, |_p: u16| true);
    assert!(result.is_none());
}

#[test]
fn test_multiple_sequential_ports() {
    let result1 = find_available_port(&[], |_p: u16| true);
    assert!(result1.is_some());
    let port1 = result1.unwrap();

    let result2 = find_available_port(&[port1], |_p: u16| true);
    assert!(result2.is_some());
    let port2 = result2.unwrap();

    assert_ne!(port1, port2);
}

#[test]
fn test_find_available_port_excludes_correctly() {
    // Exclude a large range and ensure we get a port outside of it
    let exclude: Vec<u16> = (8000..8100).collect();
    let result = find_available_port(&exclude, |_p: u16| true);
    assert!(result.is_some());
    let port = result.unwrap();
    assert!(port >= 8100 || port < 8000);
}

#[test]
fn test_find_available_port_empty_exclude_list() {
    let result = find_available_port(&vec![], |_p: u16| true);
    assert!(result.is_some());
    assert!(result.unwrap() >= 8000);
}

#[test]
fn test_find_available_port_in_range_boundary_start() {
    let result = find_available_port_in_range(8000, 8100, &[], |_p: u16| true);
    assert!(result.is_some());
    let port = result.unwrap();
    assert!(port >= 8000);
    assert!(port <= 8100);
}

#[test]
fn test_find_available_port_in_range_boundary_end() {
    let result = find_available_port_in_range(65530, 65535, &[], |_p: u16| true);
    assert!(result.is_some());
    let port = result.unwrap();
    assert!(port >= 65530);
}

#[test]
fn test_port_exclusion_order_independent() {
    let exclude1 = vec![8000, 8001, 8002];
    let exclude2 = vec![8002, 8000, 8001];

    let result1 = find_available_port_in_range(8000, 8010, &exclude1, |_p: u16| true);
    let result2 = find_available_port_in_range(8000, 8010, &exclude2, |_p: u16| true);

    assert!(result1.is_some());
    assert!(result2.is_some());
    // Both should find the same first available port
    assert_eq!(result1.unwrap(), result2.unwrap());
}

#[test]
fn test_ascending_scan_first_free_wins() {
    // The probe turns down everything below 9005; the scan must settle on
    // exactly 9005, not any later free port.
    let result = find_available_port_in_range(9000, 9010, &[], |p: u16| p >= 9005);
    assert_eq!(result, Some(9005));
}

#[test]
fn test_probe_rejects_everything() {
    let result = find_available_port_in_range(9000, 9010, &[], |_p: u16| false);
    assert!(result.is_none());
}

#[test]
fn test_exclusion_and_probe_combine() {
    // 9000 and 9001 are excluded, 9002 and 9003 are busy: 9004 wins.
    let exclude = vec![9001, 9000];
    let busy = vec![9002, 9003];
    let result = find_available_port_in_range(9000, 9010, &exclude, |p: u16| !busy.contains(&p));
    assert_eq!(result, Some(9004));
}

#[test]
fn test_order_independence_with_busy_ports() {
    // Same membership, different enumeration orders, a probe that depends
    // only on the port: identical results.
    let exclude1 = vec![9000, 9002, 9004];
    let exclude2 = vec![9004, 9000, 9002];
    let probe = |p: u16| p % 2 == 0;

    let r1 = find_available_port_in_range(9000, 9010, &exclude1, probe);
    let r2 = find_available_port_in_range(9000, 9010, &exclude2, probe);
    assert_eq!(r1, Some(9006));
    assert_eq!(r1, r2);
}
