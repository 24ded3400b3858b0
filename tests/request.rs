use roku_remote::request::{head_end, parse_request_head, RequestError};

#[test]
fn head_end_finds_first_blank_line() {
    assert_eq!(head_end(b"GET / HTTP/1.1\r\nHost: x\r\n\r\nbody\r\n\r\n"), Some(23));
    assert_eq!(head_end(b"GET / HTTP/1.1\r\nHost: x\r\n"), None);
    assert_eq!(head_end(b"\r\n\r"), None);
    assert_eq!(head_end(b"\r\n\r\n"), Some(0));
}

#[test]
fn parse_get_head() {
    let req = parse_request_head("GET /devices HTTP/1.1\r\nHost: gateway\r\nAccept:*/*").unwrap();
    assert_eq!(req.method, "GET");
    assert_eq!(req.path, "/devices");
    assert_eq!(
        req.headers,
        vec![
            ("Host".to_string(), "gateway".to_string()),
            ("Accept".to_string(), "*/*".to_string())
        ]
    );
    assert_eq!(req.body, "");
    assert_eq!(req.body_length(), Ok(0));
}

#[test]
fn parse_put_head_with_body_length() {
    let mut req =
        parse_request_head("PUT /keypress HTTP/1.1\r\ncontent-LENGTH:   31\r\nHost: g").unwrap();
    assert_eq!(req.method, "PUT");
    assert_eq!(req.path, "/keypress");
    assert_eq!(req.body_length(), Ok(31));
    req.set_body("device=Living Room&action=Home".to_string());
    assert_eq!(req.body, "device=Living Room&action=Home");
}

#[test]
fn malformed_heads_rejected() {
    assert_eq!(parse_request_head("").unwrap_err(), RequestError::MalformedRequest);
    assert_eq!(parse_request_head("GET").unwrap_err(), RequestError::MalformedRequest);
    assert_eq!(parse_request_head(" /x HTTP/1.1").unwrap_err(), RequestError::MalformedRequest);
    assert_eq!(
        parse_request_head("GET / HTTP/1.1\r\nno colon here").unwrap_err(),
        RequestError::MalformedRequest
    );
    assert_eq!(
        parse_request_head("GET / HTTP/1.1\r\n: empty name").unwrap_err(),
        RequestError::MalformedRequest
    );
}

#[test]
fn bad_body_lengths_rejected() {
    let req = parse_request_head("PUT /keypress HTTP/1.1\r\nContent-Length: 1x").unwrap();
    assert_eq!(req.body_length(), Err(RequestError::MalformedRequest));
    let req = parse_request_head("PUT /keypress HTTP/1.1\r\nContent-Length:").unwrap();
    assert_eq!(req.body_length(), Err(RequestError::MalformedRequest));
    let req = parse_request_head(
        "PUT /keypress HTTP/1.1\r\nContent-Length: 99999999999999999999999999",
    )
    .unwrap();
    assert_eq!(req.body_length(), Err(RequestError::MalformedRequest));
}

#[test]
fn first_content_length_counts() {
    let req =
        parse_request_head("PUT /k HTTP/1.1\r\nContent-Length: 5\r\nContent-Length: 7").unwrap();
    assert_eq!(req.body_length(), Ok(5));
}
