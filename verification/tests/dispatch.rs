//! The acceptor's control flow, minus the sockets: parse bytes, look the
//! route up, and serialize the answer.

use multi_thread_web_server::parse_http_request;
use multi_thread_web_server::HttpMethod;
use multi_thread_web_server::HttpStatus;
use multi_thread_web_server::LookupResult;
use multi_thread_web_server::Response;
use multi_thread_web_server::Server;

type Handler = fn(&str) -> String;

fn hello_handler(_body: &str) -> String {
    let mut response = Response::new();
    response.set_status_code(HttpStatus::OK);
    response.send(Some(String::from("Hello World"))).unwrap()
}

#[test]
fn found_route_runs_the_handler_against_the_request() {
    let mut server: Server<Handler> = Server::new(2);
    assert!(server.get("/hello", hello_handler).is_ok());

    let request = parse_http_request(b"GET /hello HTTP/1.1\r\n\r\n").unwrap();
    assert_eq!(request.method, HttpMethod::GET);
    let wire = match server.lookup(&request.path, request.method) {
        LookupResult::Found(handler) => handler(""),
        _ => panic!("expected the /hello handler"),
    };
    assert_eq!(wire, "HTTP/1.1 200 OK\r\ncontent-length:11\r\n\r\nHello World");
}

#[test]
fn missed_route_answers_with_the_miss_status() {
    let mut server: Server<Handler> = Server::new(2);
    assert!(server.get("/hello", hello_handler).is_ok());

    let request = parse_http_request(b"GET /absent HTTP/1.1\r\n\r\n").unwrap();
    let outcome = server.lookup(&request.path, request.method);
    let status = outcome.miss_status().expect("an unregistered path is a miss");
    let mut response = Response::new();
    response.set_status_code(status);
    let wire = response.send(Some(String::from("Not Found"))).unwrap();
    assert_eq!(wire, "HTTP/1.1 404 Not Found\r\ncontent-length:9\r\n\r\nNot Found");
}
