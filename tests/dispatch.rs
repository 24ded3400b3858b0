use roku_remote::device::{Ipv4Address, RokuDevice};
use roku_remote::dispatch::{
    content_type, device_names, find_device, keypress_command, parse_keypress_form, route, Action,
    FormError,
};
use roku_remote::request::Request;
use roku_remote::response::{asset_response, malformed_request_response, relay_response, Response};

fn registry() -> Vec<RokuDevice> {
    vec![RokuDevice::new(
        "Living Room".to_string(),
        Ipv4Address::new(10, 0, 0, 5),
        "Living Room".to_string(),
    )]
}

fn request(method: &str, path: &str, body: &str) -> Request {
    Request {
        method: method.to_string(),
        path: path.to_string(),
        headers: Vec::new(),
        body: body.to_string(),
    }
}

fn respond(a: Action) -> Response {
    match a {
        Action::Respond(r) => r,
        other => panic!("expected an immediate answer, got {:?}", other),
    }
}

#[test]
fn keypress_is_relayed_to_device() {
    let a = route(&request("PUT", "/keypress", "device=Living Room&action=Home"), &registry());
    match a {
        Action::Relay { address, port, command } => {
            assert_eq!(address, Ipv4Address::new(10, 0, 0, 5));
            assert_eq!(port, 8060);
            assert!(command.contains("Home"));
            assert_eq!(command, "POST /keypress/Home HTTP/1.1\r\n\r\n");
        }
        other => panic!("expected a relay, got {:?}", other),
    }
    let r = relay_response(Ok(()));
    assert_eq!(r.status, 200);
}

#[test]
fn refused_relay_gives_503() {
    let devices = registry();
    let r = relay_response(Err("Connection refused".to_string()));
    assert_eq!(r.status, 503);
    assert_eq!(r.status_message, "Service Unavailable");
    assert_eq!(r.body, "Connection refused");
    assert_eq!(devices.len(), 1);
    assert_eq!(devices[0].name, "Living Room");
}

#[test]
fn pair_without_equals_is_echoed() {
    let r = respond(route(&request("PUT", "/keypress", "device=Living Room&actionHome"), &registry()));
    assert_eq!(r.status, 400);
    assert_eq!(r.status_message, "Invalid PUT parameter: actionHome");
}

#[test]
fn pair_with_two_equals_is_echoed() {
    let r = respond(route(&request("PUT", "/keypress", "device=a=b&action=Home"), &registry()));
    assert_eq!(r.status, 400);
    assert_eq!(r.status_message, "Invalid PUT parameter: device=a=b");
}

#[test]
fn pair_with_empty_side_is_malformed() {
    match parse_keypress_form("device=&action=Home") {
        Err(FormError::MalformedParameter(p)) => assert_eq!(p, "device="),
        other => panic!("unexpected {:?}", other),
    }
    match parse_keypress_form("") {
        Err(FormError::MalformedParameter(p)) => assert_eq!(p, ""),
        other => panic!("unexpected {:?}", other),
    }
}

#[test]
fn missing_parameter_rejected() {
    assert!(matches!(parse_keypress_form("device=TV"), Err(FormError::MissingParameter)));
    let r = respond(route(&request("PUT", "/keypress", "action=Home&x=y"), &registry()));
    assert_eq!(r.status, 400);
    assert_eq!(r.status_message, "Incorrect parameters for keypress call!");
}

#[test]
fn later_values_win_and_extra_names_ignored() {
    let f = parse_keypress_form("device=A&extra=1&action=Up&device=B").unwrap();
    assert_eq!(f.device, "B");
    assert_eq!(f.action, "Up");
}

#[test]
fn unknown_device_named_in_400() {
    let r = respond(route(&request("PUT", "/keypress", "device=Kitchen&action=Home"), &registry()));
    assert_eq!(r.status, 400);
    assert_eq!(r.status_message, "No device found with name: Kitchen");
}

#[test]
fn first_device_with_name_wins() {
    let mut devices = registry();
    devices.push(RokuDevice::new("Living Room".to_string(), Ipv4Address::new(10, 0, 0, 9), "x".to_string()));
    devices.push(RokuDevice::new("Den".to_string(), Ipv4Address::new(10, 0, 0, 11), "x".to_string()));
    assert_eq!(find_device(&devices, "Living Room"), Some(0));
    assert_eq!(find_device(&devices, "Den"), Some(2));
    assert_eq!(find_device(&devices, "Attic"), None);
}

#[test]
fn devices_listing_joins_names() {
    let mut devices = registry();
    devices.push(RokuDevice::new("Den".to_string(), Ipv4Address::new(10, 0, 0, 11), "x".to_string()));
    let r = respond(route(&request("GET", "/devices", ""), &devices));
    assert_eq!(r.status, 200);
    assert_eq!(r.body, "Living Room,Den");
    assert_eq!(device_names(&registry()), "Living Room");
}

#[test]
fn empty_registry_lists_nothing() {
    let r = respond(route(&request("GET", "/devices", ""), &Vec::new()));
    assert_eq!(r.status, 200);
    assert_eq!(r.body, "");
    assert_eq!(r.headers, vec!["Content-Type: text/plain".to_string()]);
}

#[test]
fn traversal_rejected() {
    let r = respond(route(&request("GET", "/../secret", ""), &registry()));
    assert_eq!(r.status, 400);
    let r = respond(route(&request("GET", "/static/..", ""), &registry()));
    assert_eq!(r.status, 400);
}

#[test]
fn index_and_assets_served_from_static() {
    match route(&request("GET", "/", ""), &registry()) {
        Action::ServeAsset { file, content_type } => {
            assert_eq!(file, "static/index.html");
            assert_eq!(content_type, "text/html; charset=utf-8");
        }
        other => panic!("unexpected {:?}", other),
    }
    match route(&request("GET", "/app/main.js", ""), &registry()) {
        Action::ServeAsset { file, content_type } => {
            assert_eq!(file, "static/app/main.js");
            assert_eq!(content_type, "text/javascript");
        }
        other => panic!("unexpected {:?}", other),
    }
}

#[test]
fn content_types_by_extension() {
    assert_eq!(content_type("/style.css"), "text/css");
    assert_eq!(content_type("/a.b.js"), "text/javascript");
    assert_eq!(content_type("/readme.txt"), "text/plain");
    assert_eq!(content_type("/noext"), "text/plain");
}

#[test]
fn asset_responses() {
    let r = asset_response("text/css", Some("body{}".to_string()));
    assert_eq!(r.status, 200);
    assert_eq!(r.headers, vec!["Content-Type: text/css".to_string()]);
    assert_eq!(r.body, "body{}");
    let r = asset_response("text/css", None);
    assert_eq!(r.status, 404);
    assert_eq!(r.status_message, "Not Found");
}

#[test]
fn other_routes_not_found() {
    assert_eq!(respond(route(&request("POST", "/devices", ""), &registry())).status, 404);
    assert_eq!(respond(route(&request("PUT", "/devices", ""), &registry())).status, 404);
    assert_eq!(malformed_request_response().status, 400);
}

#[test]
fn default_response_is_plain_ok() {
    let r = Response::new();
    assert_eq!(r.status, 200);
    assert_eq!(r.status_message, "OK");
    assert_eq!(r.headers, vec!["Content-Type: text/plain".to_string()]);
    assert_eq!(r.body, "");
}

#[test]
fn keypress_command_format() {
    assert_eq!(keypress_command("Select"), "POST /keypress/Select HTTP/1.1\r\n\r\n");
}

#[test]
fn response_wire_text() {
    let r = Response::plain(503, "Service Unavailable".to_string(), "down".to_string());
    assert_eq!(
        r.to_wire(),
        "HTTP/1.1 503 Service Unavailable\r\nContent-Type: text/plain\r\n\r\ndown"
    );
    let r = asset_response("text/css", Some("x".to_string()));
    assert_eq!(r.to_wire(), "HTTP/1.1 200 OK\r\nContent-Type: text/css\r\n\r\nx");
    let r = Response::status_only(7, "Odd");
    assert_eq!(r.to_wire(), "HTTP/1.1 7 Odd\r\nContent-Type: text/plain\r\n\r\n");
}
