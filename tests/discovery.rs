use roku_remote::device::{Ipv4Address, RokuDevice};
use roku_remote::discovery::{
    build_registry, classify_response, device_from_fields, scan_range, split_response, status_ok,
    DiscoveryError, HostAddress, Probe, DEVICE_INFO_QUERY, DEVICE_PORT, SUBNET_SEARCH_LIMIT,
};

fn device_info(name: &str, location: &str) -> String {
    format!(
        "HTTP/1.1 200 OK\r\nContent-Type: text/xml\r\n\r\n<?xml version=\"1.0\"?>\n<device-info><friendly-device-name>{}</friendly-device-name><user-device-location>{}</user-device-location></device-info>",
        name, location
    )
}

#[test]
fn scan_range_covers_subnet_in_order() {
    let host = HostAddress::V4(Ipv4Address::new(192, 168, 1, 77));
    let v = scan_range(Some(host), SUBNET_SEARCH_LIMIT).unwrap();
    assert_eq!(v.len(), 14);
    assert_eq!(v[0], Ipv4Address::new(192, 168, 1, 1));
    assert_eq!(v[13], Ipv4Address::new(192, 168, 1, 14));
    for k in 1..v.len() {
        assert!(v[k - 1].3 < v[k].3);
    }
}

#[test]
fn scan_range_empty_for_small_limit() {
    let host = HostAddress::V4(Ipv4Address::new(10, 0, 0, 9));
    assert!(scan_range(Some(host), 1).unwrap().is_empty());
    assert!(scan_range(Some(host), 0).unwrap().is_empty());
}

#[test]
fn scan_range_errors() {
    assert_eq!(scan_range(None, 15).unwrap_err(), DiscoveryError::HostAddressUnavailable);
    assert_eq!(
        scan_range(Some(HostAddress::V6), 15).unwrap_err(),
        DiscoveryError::UnsupportedAddressFamily
    );
}

#[test]
fn constants_of_the_device_protocol() {
    assert_eq!(DEVICE_PORT, 8060);
    assert_eq!(DEVICE_INFO_QUERY, "GET /query/device-info HTTP/1.1\r\n\r\n");
}

#[test]
fn split_response_at_first_blank_line() {
    let (head, body) = split_response("HTTP/1.1 200 OK\r\nA: b\r\n\r\nbody\r\n\r\nmore").unwrap();
    assert_eq!(head, "HTTP/1.1 200 OK\r\nA: b");
    assert_eq!(body, "body\r\n\r\nmore");
    assert!(split_response("HTTP/1.1 200 OK\r\nA: b\r\n").is_none());
}

#[test]
fn status_line_success_class() {
    assert!(status_ok("HTTP/1.1 200 OK\r\nServer: x"));
    assert!(status_ok("HTTP/1.1 204 No Content"));
    assert!(!status_ok("HTTP/1.1 404 Not Found\r\nServer: x"));
    assert!(!status_ok("HTTP/1.1 2000 Odd"));
    assert!(!status_ok("garbage"));
}

#[test]
fn simulated_device_enters_registry() {
    let probes = vec![Probe {
        address: Ipv4Address::new(10, 0, 0, 5),
        response: Some(device_info("Living Room", "Living Room")),
    }];
    let registry = build_registry(&probes);
    assert_eq!(registry.len(), 1);
    assert_eq!(registry[0].name, "Living Room");
    assert_eq!(registry[0].address, Ipv4Address::new(10, 0, 0, 5));
    assert_eq!(registry[0].location, "Living Room");
}

#[test]
fn classify_reads_both_fields() {
    let d = classify_response(Ipv4Address::new(10, 0, 0, 7), &device_info("Den TV", "Den")).unwrap();
    assert_eq!(d.name, "Den TV");
    assert_eq!(d.location, "Den");
    assert_eq!(d.address, Ipv4Address::new(10, 0, 0, 7));
}

#[test]
fn classify_skips_bad_answers() {
    let a = Ipv4Address::new(10, 0, 0, 7);
    let not_ok = device_info("Den", "Den").replace("200 OK", "500 Internal Server Error");
    assert!(classify_response(a, &not_ok).is_none());
    assert!(classify_response(a, "HTTP/1.1 200 OK\r\nno boundary").is_none());
    assert!(classify_response(a, "HTTP/1.1 200 OK\r\n\r\n<not xml").is_none());
    let no_location = "HTTP/1.1 200 OK\r\n\r\n<d><friendly-device-name>Den</friendly-device-name></d>";
    assert!(classify_response(a, no_location).is_none());
    let empty_name = "HTTP/1.1 200 OK\r\n\r\n<d><friendly-device-name></friendly-device-name><user-device-location>Den</user-device-location></d>";
    assert!(classify_response(a, empty_name).is_none());
}

#[test]
fn device_from_fields_needs_both() {
    let a = Ipv4Address::new(1, 2, 3, 4);
    let d = device_from_fields(a, Some("N".to_string()), Some("L".to_string())).unwrap();
    assert_eq!((d.name.as_str(), d.location.as_str(), d.address), ("N", "L", a));
    assert!(device_from_fields(a, None, Some("L".to_string())).is_none());
    assert!(device_from_fields(a, Some("N".to_string()), None).is_none());
    assert!(device_from_fields(a, Some(String::new()), Some("L".to_string())).is_none());
}

fn sample_probes() -> Vec<Probe> {
    vec![
        Probe { address: Ipv4Address::new(10, 0, 0, 1), response: None },
        Probe { address: Ipv4Address::new(10, 0, 0, 2), response: Some(device_info("Kitchen", "Kitchen")) },
        Probe { address: Ipv4Address::new(10, 0, 0, 3), response: Some("HTTP/1.1 404 Not Found\r\n\r\n".to_string()) },
        Probe { address: Ipv4Address::new(10, 0, 0, 4), response: Some(device_info("Bedroom", "Upstairs")) },
    ]
}

#[test]
fn registry_order_is_deterministic() {
    let first: Vec<String> = build_registry(&sample_probes()).into_iter().map(|d| d.name).collect();
    let second: Vec<String> = build_registry(&sample_probes()).into_iter().map(|d| d.name).collect();
    assert_eq!(first, vec!["Kitchen".to_string(), "Bedroom".to_string()]);
    assert_eq!(first, second);
}

#[test]
fn registry_follows_ascending_addresses() {
    let registry = build_registry(&sample_probes());
    assert_eq!(registry[0].address, Ipv4Address::new(10, 0, 0, 2));
    assert_eq!(registry[1].address, Ipv4Address::new(10, 0, 0, 4));
}

#[test]
fn device_new_keeps_fields() {
    let d = RokuDevice::new("A".to_string(), Ipv4Address::new(1, 1, 1, 1), "B".to_string());
    assert_eq!(d.name, "A");
    assert_eq!(d.location, "B");
    assert_eq!(d.address, Ipv4Address(1, 1, 1, 1));
}
