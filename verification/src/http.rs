//! HTTP methods and status codes.

use vstd::prelude::*;

verus! {

/// The closed set of request methods the server understands.
#[derive(Clone, Copy, PartialEq, Eq, Structural, Debug, Hash)]
pub enum HttpMethod {
    GET,
    POST,
    PUT,
    PATCH,
    DELETE,
    OPTIONS,
}

/// The status codes a response can carry, each with a fixed reason phrase.
#[derive(Clone, Copy, PartialEq, Eq, Structural, Debug, Hash)]
pub enum HttpStatus {
    OK,
    BadRequest,
    UnAuthorised,
    NotFound,
    MethodNotAllowed,
    InternalServerError,
}

/// The method a request-line token names, if any.
pub open spec fn spec_method_of(s: Seq<u8>) -> Option<HttpMethod> {
    if s == seq![71u8, 69u8, 84u8] {
        Some(HttpMethod::GET)
    } else if s == seq![80u8, 79u8, 83u8, 84u8] {
        Some(HttpMethod::POST)
    } else if s == seq![80u8, 85u8, 84u8] {
        Some(HttpMethod::PUT)
    } else if s == seq![80u8, 65u8, 84u8, 67u8, 72u8] {
        Some(HttpMethod::PATCH)
    } else if s == seq![68u8, 69u8, 76u8, 69u8, 84u8, 69u8] {
        Some(HttpMethod::DELETE)
    } else if s == seq![79u8, 80u8, 84u8, 73u8, 79u8, 78u8, 83u8] {
        Some(HttpMethod::OPTIONS)
    } else {
        None
    }
}

impl HttpMethod {
    /// Match a request-line token against the closed method set.
    pub fn from_token(token: &Vec<u8>) -> (r: Option<HttpMethod>)
        ensures
            r == spec_method_of(token@),
    {
        let n = token.len();
        if n == 3 && token[0] == 71u8 && token[1] == 69u8 && token[2] == 84u8 {
            proof {
                assert(token@ =~= seq![71u8, 69u8, 84u8]);
            }
            Some(HttpMethod::GET)
        } else if n == 4 && token[0] == 80u8 && token[1] == 79u8 && token[2] == 83u8 && token[3] == 84u8 {
            proof {
                assert(token@ =~= seq![80u8, 79u8, 83u8, 84u8]);
            }
            Some(HttpMethod::POST)
        } else if n == 3 && token[0] == 80u8 && token[1] == 85u8 && token[2] == 84u8 {
            proof {
                assert(token@ =~= seq![80u8, 85u8, 84u8]);
            }
            Some(HttpMethod::PUT)
        } else if n == 5 && token[0] == 80u8 && token[1] == 65u8 && token[2] == 84u8 && token[3] == 67u8
            && token[4] == 72u8 {
            proof {
                assert(token@ =~= seq![80u8, 65u8, 84u8, 67u8, 72u8]);
            }
            Some(HttpMethod::PATCH)
        } else if n == 6 && token[0] == 68u8 && token[1] == 69u8 && token[2] == 76u8 && token[3] == 69u8
            && token[4] == 84u8 && token[5] == 69u8 {
            proof {
                assert(token@ =~= seq![68u8, 69u8, 76u8, 69u8, 84u8, 69u8]);
            }
            Some(HttpMethod::DELETE)
        } else if n == 7 && token[0] == 79u8 && token[1] == 80u8 && token[2] == 84u8 && token[3] == 73u8
            && token[4] == 79u8 && token[5] == 78u8 && token[6] == 83u8 {
            proof {
                assert(token@ =~= seq![79u8, 80u8, 84u8, 73u8, 79u8, 78u8, 83u8]);
            }
            Some(HttpMethod::OPTIONS)
        } else {
            None
        }
    }
}

impl HttpStatus {
    /// The numeric code of the status.
    pub open spec fn spec_code(self) -> u16 {
        match self {
            HttpStatus::OK => 200,
            HttpStatus::BadRequest => 400,
            HttpStatus::UnAuthorised => 401,
            HttpStatus::NotFound => 404,
            HttpStatus::MethodNotAllowed => 405,
            HttpStatus::InternalServerError => 500,
        }
    }

    /// The status line fragment: numeric code, a space, and the reason phrase.
    pub open spec fn spec_text(self) -> Seq<char> {
        match self {
            HttpStatus::OK => "200 OK"@,
            HttpStatus::BadRequest => "400 Bad Request"@,
            HttpStatus::UnAuthorised => "401 Unauthorized"@,
            HttpStatus::NotFound => "404 Not Found"@,
            HttpStatus::MethodNotAllowed => "405 Method Not Allowed"@,
            HttpStatus::InternalServerError => "500 Internal Server Error"@,
        }
    }

    pub fn code(&self) -> (c: u16)
        ensures
            c == self.spec_code(),
    {
        match self {
            HttpStatus::OK => 200,
            HttpStatus::BadRequest => 400,
            HttpStatus::UnAuthorised => 401,
            HttpStatus::NotFound => 404,
            HttpStatus::MethodNotAllowed => 405,
            HttpStatus::InternalServerError => 500,
        }
    }

    /// Render the code and reason phrase, e.g. `"200 OK"`.
    pub fn to_string(&self) -> (s: String)
        ensures
            s@ == self.spec_text(),
    {
        match self {
            HttpStatus::OK => String::from_str("200 OK"),
            HttpStatus::BadRequest => String::from_str("400 Bad Request"),
            HttpStatus::UnAuthorised => String::from_str("401 Unauthorized"),
            HttpStatus::NotFound => String::from_str("404 Not Found"),
            HttpStatus::MethodNotAllowed => String::from_str("405 Method Not Allowed"),
            HttpStatus::InternalServerError => String::from_str("500 Internal Server Error"),
        }
    }
}

} // verus!
