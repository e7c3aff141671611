use multi_thread_web_server::HttpMethod;
use multi_thread_web_server::HttpStatus;
use multi_thread_web_server::LookupResult;
use multi_thread_web_server::RouteConflictError;
use multi_thread_web_server::Server;

#[test]
fn register_then_lookup_finds_exact_handler() {
    let mut server: Server<u32> = Server::new(4);
    assert!(server.get("/hello", 1).is_ok());
    assert!(server.get("/bye", 2).is_ok());
    let path = String::from("/hello");
    match server.lookup(&path, HttpMethod::GET) {
        LookupResult::Found(h) => assert_eq!(*h, 1),
        _ => panic!("expected the registered handler"),
    }
    let other = String::from("/bye");
    match server.lookup(&other, HttpMethod::GET) {
        LookupResult::Found(h) => assert_eq!(*h, 2),
        _ => panic!("expected the registered handler"),
    }
}

#[test]
fn unknown_path_is_path_unknown_404() {
    let mut server: Server<u32> = Server::new(4);
    assert!(server.get("/hello", 1).is_ok());
    let path = String::from("/missing");
    let outcome = server.lookup(&path, HttpMethod::GET);
    assert!(matches!(outcome, LookupResult::PathUnknown));
    assert_eq!(outcome.miss_status(), Some(HttpStatus::NotFound));
}

#[test]
fn unknown_method_on_known_path_is_method_unknown_405() {
    let mut server: Server<u32> = Server::new(4);
    assert!(server.get("/hello", 1).is_ok());
    let path = String::from("/hello");
    let outcome = server.lookup(&path, HttpMethod::POST);
    assert!(matches!(outcome, LookupResult::MethodUnknown));
    assert_eq!(outcome.miss_status(), Some(HttpStatus::MethodNotAllowed));
}

#[test]
fn found_handler_has_no_miss_status() {
    let mut server: Server<u32> = Server::new(4);
    assert!(server.get("/hello", 1).is_ok());
    let path = String::from("/hello");
    let outcome = server.lookup(&path, HttpMethod::GET);
    assert_eq!(outcome.miss_status(), None);
}

#[test]
fn duplicate_registration_is_rejected() {
    let mut server: Server<u32> = Server::new(4);
    assert!(server.get("/hello", 1).is_ok());
    assert_eq!(server.get("/hello", 2), Err(RouteConflictError::Duplicate));
    // The same path under another method is fine.
    assert!(server.post("/hello", 3).is_ok());
}

#[test]
fn path_without_leading_slash_is_rejected() {
    let mut server: Server<u32> = Server::new(4);
    assert_eq!(server.get("hello", 1), Err(RouteConflictError::BadPath));
    assert_eq!(server.get("", 1), Err(RouteConflictError::BadPath));
}

#[test]
fn helpers_register_their_own_method() {
    let mut server: Server<u32> = Server::new(4);
    assert!(server.get("/r", 1).is_ok());
    assert!(server.post("/r", 2).is_ok());
    assert!(server.put("/r", 3).is_ok());
    assert!(server.patch("/r", 4).is_ok());
    assert!(server.delete("/r", 5).is_ok());
    assert!(server.option("/r", 6).is_ok());
    let path = String::from("/r");
    let cases = [
        (HttpMethod::GET, 1),
        (HttpMethod::POST, 2),
        (HttpMethod::PUT, 3),
        (HttpMethod::PATCH, 4),
        (HttpMethod::DELETE, 5),
        (HttpMethod::OPTIONS, 6),
    ];
    for (method, expected) in cases {
        match server.lookup(&path, method) {
            LookupResult::Found(h) => assert_eq!(*h, expected),
            _ => panic!("expected a handler"),
        }
    }
}

#[test]
fn status_codes_and_reason_phrases() {
    assert_eq!(HttpStatus::OK.code(), 200);
    assert_eq!(HttpStatus::BadRequest.code(), 400);
    assert_eq!(HttpStatus::UnAuthorised.code(), 401);
    assert_eq!(HttpStatus::NotFound.code(), 404);
    assert_eq!(HttpStatus::MethodNotAllowed.code(), 405);
    assert_eq!(HttpStatus::InternalServerError.code(), 500);
    assert_eq!(HttpStatus::OK.to_string(), "200 OK");
    assert_eq!(HttpStatus::BadRequest.to_string(), "400 Bad Request");
    assert_eq!(HttpStatus::UnAuthorised.to_string(), "401 Unauthorized");
    assert_eq!(HttpStatus::NotFound.to_string(), "404 Not Found");
    assert_eq!(HttpStatus::MethodNotAllowed.to_string(), "405 Method Not Allowed");
    assert_eq!(HttpStatus::InternalServerError.to_string(), "500 Internal Server Error");
}
