use multi_thread_web_server::parse_http_request;
use multi_thread_web_server::parse_http_response;
use multi_thread_web_server::HttpMethod;
use multi_thread_web_server::HttpStatus;
use multi_thread_web_server::MissingStatusError;
use multi_thread_web_server::ParseError;
use multi_thread_web_server::Response;

#[test]
fn response_round_trip_hello_world() {
    let mut response = Response::new();
    response.set_status_code(HttpStatus::OK);
    let out = response.send(Some(String::from("Hello World"))).unwrap();
    assert_eq!(out, "HTTP/1.1 200 OK\r\ncontent-length:11\r\n\r\nHello World");
}

#[test]
fn send_before_set_status_fails_and_writes_nothing() {
    let response = Response::new();
    assert_eq!(response.send(Some(String::from("body"))), Err(MissingStatusError));
    assert_eq!(response.send(None), Err(MissingStatusError));
}

#[test]
fn send_without_body_has_zero_content_length() {
    let mut response = Response::new();
    response.set_status_code(HttpStatus::NotFound);
    let out = response.send(None).unwrap();
    assert_eq!(out, "HTTP/1.1 404 Not Found\r\ncontent-length:0\r\n\r\n");
}

#[test]
fn header_keys_are_emitted_lower_cased() {
    let mut response = Response::new();
    response.set_status_code(HttpStatus::OK);
    response.set_header("X-Custom-Header", "Value");
    let out = response.send(None).unwrap();
    assert_eq!(out, "HTTP/1.1 200 OK\r\nx-custom-header:Value\r\ncontent-length:0\r\n\r\n");
}

#[test]
fn setting_a_header_twice_keeps_one_entry_with_the_last_value() {
    let mut response = Response::new();
    response.set_status_code(HttpStatus::OK);
    response.set_header("a", "1");
    response.set_header("b", "2");
    response.set_header("a", "3");
    let out = response.send(None).unwrap();
    assert_eq!(out, "HTTP/1.1 200 OK\r\na:3\r\nb:2\r\ncontent-length:0\r\n\r\n");
}

#[test]
fn parse_http_response_exact_format() {
    let out = parse_http_response(HttpStatus::OK, String::from("hi"));
    assert_eq!(out, "HTTP/1.1 200 OK\nContent-Type: text/plain\nContent-Length: 2\n\nhi");
}

#[test]
fn parse_request_with_body_and_trailing_bytes() {
    let input = b"POST /submit HTTP/1.1\r\ncontent-length: 5\r\n\r\nabcdeEXTRA UNRELATED BYTES";
    let request = parse_http_request(input).unwrap();
    assert_eq!(request.method, HttpMethod::POST);
    assert_eq!(request.path, "/submit");
    assert_eq!(request.body, Some(String::from("abcde")));
}

#[test]
fn parse_request_without_body() {
    let input = b"GET /index HTTP/1.1\r\nhost: example\r\n\r\n";
    let request = parse_http_request(input).unwrap();
    assert_eq!(request.method, HttpMethod::GET);
    assert_eq!(request.path, "/index");
    assert_eq!(request.body, None);
    assert_eq!(request.headers, vec![(String::from("host"), String::from("example"))]);
}

#[test]
fn parse_request_zero_content_length_has_no_body() {
    let input = b"GET / HTTP/1.1\r\ncontent-length: 0\r\n\r\n";
    let request = parse_http_request(input).unwrap();
    assert_eq!(request.body, None);
}

#[test]
fn header_keys_are_trimmed_and_lower_cased_values_keep_colons() {
    let input = b"GET / HTTP/1.1\r\n X-Token : a:b:c \r\n\r\n";
    let request = parse_http_request(input).unwrap();
    assert_eq!(request.headers, vec![(String::from("x-token"), String::from("a:b:c"))]);
}

#[test]
fn header_line_without_colon_is_ignored() {
    let input = b"GET / HTTP/1.1\r\nthis line has no separator\r\nhost: h\r\n\r\n";
    let request = parse_http_request(input).unwrap();
    assert_eq!(request.headers, vec![(String::from("host"), String::from("h"))]);
}

#[test]
fn duplicate_header_keeps_the_last_value() {
    let input = b"GET / HTTP/1.1\r\nhost: a\r\nHost: b\r\n\r\n";
    let request = parse_http_request(input).unwrap();
    assert_eq!(request.headers, vec![(String::from("host"), String::from("b"))]);
}

#[test]
fn unknown_method_is_rejected() {
    let input = b"BREW /pot HTTP/1.1\r\n\r\n";
    assert_eq!(parse_http_request(input), Err(ParseError::UnknownMethod));
}

#[test]
fn lower_case_method_token_is_rejected() {
    let input = b"get / HTTP/1.1\r\n\r\n";
    assert_eq!(parse_http_request(input), Err(ParseError::UnknownMethod));
}

#[test]
fn request_line_needs_exactly_three_tokens() {
    assert_eq!(
        parse_http_request(b"GET /\r\n\r\n"),
        Err(ParseError::MalformedRequestLine)
    );
    assert_eq!(
        parse_http_request(b"GET / HTTP/1.1 EXTRA\r\n\r\n"),
        Err(ParseError::MalformedRequestLine)
    );
    assert_eq!(parse_http_request(b""), Err(ParseError::MalformedRequestLine));
}

#[test]
fn bad_content_length_is_rejected() {
    assert_eq!(
        parse_http_request(b"GET / HTTP/1.1\r\ncontent-length: five\r\n\r\n"),
        Err(ParseError::BadContentLength)
    );
    assert_eq!(
        parse_http_request(b"GET / HTTP/1.1\r\ncontent-length:\r\n\r\n"),
        Err(ParseError::BadContentLength)
    );
    assert_eq!(
        parse_http_request(b"GET / HTTP/1.1\r\ncontent-length: 99999999999999999999999999\r\n\r\n"),
        Err(ParseError::BadContentLength)
    );
}

#[test]
fn truncated_body_is_rejected() {
    assert_eq!(
        parse_http_request(b"GET / HTTP/1.1\r\ncontent-length: 10\r\n\r\nabc"),
        Err(ParseError::TruncatedBody)
    );
}

#[test]
fn missing_header_terminator_is_rejected() {
    assert_eq!(
        parse_http_request(b"GET / HTTP/1.1\r\nhost: h\r\n"),
        Err(ParseError::TruncatedHeaders)
    );
}

#[test]
fn non_utf8_body_bytes_are_replaced_not_dropped() {
    let mut input: Vec<u8> = Vec::new();
    input.extend_from_slice(b"GET / HTTP/1.1\r\ncontent-length: 1\r\n\r\n");
    input.push(0xFF);
    let request = parse_http_request(&input).unwrap();
    assert_eq!(request.body, Some(String::from("\u{FFFD}")));
}

#[test]
fn method_tokens_parse_to_the_closed_enum() {
    let cases: [(&[u8], HttpMethod); 6] = [
        (b"GET", HttpMethod::GET),
        (b"POST", HttpMethod::POST),
        (b"PUT", HttpMethod::PUT),
        (b"PATCH", HttpMethod::PATCH),
        (b"DELETE", HttpMethod::DELETE),
        (b"OPTIONS", HttpMethod::OPTIONS),
    ];
    for (token, method) in cases {
        assert_eq!(HttpMethod::from_token(&token.to_vec()), Some(method));
    }
    assert_eq!(HttpMethod::from_token(&b"OPTION".to_vec()), None);
    assert_eq!(HttpMethod::from_token(&b"".to_vec()), None);
}
