use ports_manager::Config;
use ports_manager::DefaultsConfig;
use ports_manager::PortSpec;
use ports_manager::port_finder::find_available_port;

#[test]
fn test_create_defaults_contents() {
    let d = DefaultsConfig::create_defaults();
    assert_eq!(d.version, 1);
    assert_eq!(d.ports.len(), 29);
    assert_eq!(d.ports[0].name, "postgres");
    assert_eq!(d.ports[0].port, PortSpec::Single(5432));
    assert_eq!(
        d.ports[0].description,
        Some("PostgreSQL database".to_string())
    );
    assert_eq!(d.ports[28].name, "dns");
    assert_eq!(d.ports[28].port, PortSpec::Single(53));
}

#[test]
fn test_reset_regenerates_catalog() {
    let d = DefaultsConfig::reset();
    assert_eq!(d.version, 1);
    assert_eq!(d.ports.len(), 29);
    let redis = d.ports.iter().find(|m| m.name == "redis").unwrap();
    assert_eq!(redis.port, PortSpec::Single(6379));
}

#[test]
fn test_sync_from_nothing_reports_full_count() {
    let (store, delta) = DefaultsConfig::sync(None);
    assert_eq!(store.ports.len(), 29);
    assert_eq!(delta, 29);
}

#[test]
fn test_sync_twice_reports_zero() {
    // A second sync against the store the first one wrote changes nothing.
    let (first, _) = DefaultsConfig::sync(None);
    let (second, delta) = DefaultsConfig::sync(Some(&first));
    assert_eq!(delta, 0);
    assert_eq!(second.ports.len(), first.ports.len());
}

#[test]
fn test_sync_reports_drop_against_larger_store() {
    let mut bigger = DefaultsConfig::create_defaults();
    bigger.ports.push(ports_manager::PortMapping {
        name: "extra".to_string(),
        port: PortSpec::Single(4000),
        description: None,
    });
    let (_, delta) = DefaultsConfig::sync(Some(&bigger));
    assert_eq!(delta, -1);
}

#[test]
fn test_end_to_end_resolution_and_allocation() {
    // Fresh state: a known service resolves through the defaults without a
    // user entry being created.
    let mut config = Config::default();
    let defaults = DefaultsConfig::create_defaults();

    let redis = config.find_port("redis", &defaults).unwrap();
    assert_eq!(redis.port, PortSpec::Single(6379));
    assert_eq!(config.list_ports().len(), 0);

    // An unknown name gets the lowest free port at or above 8000 that no
    // store claims, and the assignment is persisted as a user entry.
    assert!(config.find_port("myservice", &defaults).is_none());
    let used = config.get_used_ports(&defaults);
    let port = find_available_port(&used, |_p: u16| true).unwrap();
    let expected = (8000u16..=65535).find(|p| !used.contains(p)).unwrap();
    assert_eq!(port, expected);

    config.add_port("myservice".to_string(), PortSpec::Single(port), None);
    let again = config.find_port("myservice", &defaults).unwrap();
    assert_eq!(again.port, PortSpec::Single(port));
    assert_eq!(config.list_ports().len(), 1);
}
