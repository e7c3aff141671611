//! The request parser and the plain-text response formatter.
//!
//! `parse_http_request` reads one request from raw connection bytes:
//! the request line (`METHOD SP PATH SP VERSION`), header lines up to
//! the empty terminator line, and — when a positive `content-length`
//! was given — exactly that many body bytes.  Whatever follows the body
//! on the connection is ignored.  Reading the bytes off the socket is
//! I/O and is left to the embedding program.

use vstd::prelude::*;
use vstd::utf8::encode_utf8;

use crate::http::spec_method_of;
use crate::http::HttpMethod;
use crate::http::HttpStatus;
use crate::server::Request;
use crate::text::all_digits;
use crate::text::ascii_lower;
use crate::text::bytes_eq;
use crate::text::bytes_to_string_lossy;
use crate::text::find_byte;
use crate::text::find_from;
use crate::text::lower_bytes;
use crate::text::parse_decimal;
use crate::text::spec_dec_value;
use crate::text::spec_decimal;
use crate::text::spec_trim;
use crate::text::subrange_vec;
use crate::text::trim_bytes;
use crate::text::usize_to_string;
use crate::text::utf8_lossy_of;

verus! {

broadcast use vstd::slice::axiom_spec_len;

/// Why a request could not be parsed.
#[derive(Clone, Copy, PartialEq, Eq, Structural, Debug)]
pub enum ParseError {
    /// No request line, or not exactly three space-separated tokens.
    MalformedRequestLine,
    /// The method token is not one of the recognized methods.
    UnknownMethod,
    /// A `content-length` header that is not a non-negative integer in range.
    BadContentLength,
    /// The input ended before the blank line terminating the headers.
    TruncatedHeaders,
    /// The input holds fewer body bytes than `content-length` announced.
    TruncatedBody,
}

/// The parsed request, at the byte level: the exact path bytes, the
/// headers as (lower-cased key, trimmed value) byte strings with unique
/// keys, and the body bytes when a positive `content-length` was given.
pub struct RequestModel {
    pub method: HttpMethod,
    pub path: Seq<u8>,
    pub headers: Seq<(Seq<u8>, Seq<u8>)>,
    pub body: Option<Seq<u8>>,
}

/// The header list as (key, value) byte sequences.
pub open spec fn hdr_model(h: Seq<(Vec<u8>, Vec<u8>)>) -> Seq<(Seq<u8>, Seq<u8>)> {
    Seq::new(h.len(), |i: int| (h[i].0@, h[i].1@))
}

/// Index of the first header whose key is `k`, if any.
pub open spec fn find_key_bytes(hs: Seq<(Seq<u8>, Seq<u8>)>, k: Seq<u8>) -> Option<int>
    decreases hs.len(),
{
    if hs.len() == 0 {
        None
    } else if hs[0].0 == k {
        Some(0int)
    } else {
        match find_key_bytes(hs.drop_first(), k) {
            Some(i) => Some(i + 1),
            None => None,
        }
    }
}

/// The header list after setting `k` to `v`: the existing entry is
/// replaced, or a new one appended.
pub open spec fn spec_upsert_bytes(hs: Seq<(Seq<u8>, Seq<u8>)>, k: Seq<u8>, v: Seq<u8>) -> Seq<(Seq<u8>, Seq<u8>)> {
    match find_key_bytes(hs, k) {
        Some(i) => hs.update(i, (k, v)),
        None => hs.push((k, v)),
    }
}

/// The bytes of one line: from `from` up to the line feed at `lf`, with a
/// trailing carriage return stripped.
pub open spec fn spec_line(input: Seq<u8>, from: int, lf: int) -> Seq<u8> {
    let raw = input.subrange(from, lf);
    if raw.len() > 0 && raw.last() == 13 {
        raw.drop_last()
    } else {
        raw
    }
}

/// The key of the header that announces the body length.
pub open spec fn content_length_key() -> Seq<u8> {
    seq![99u8, 111u8, 110u8, 116u8, 101u8, 110u8, 116u8, 45u8, 108u8, 101u8, 110u8, 103u8, 116u8, 104u8]
}

/// A found occurrence lies between `from` and the end.
pub proof fn lemma_find_from_bounds(s: Seq<u8>, from: int, b: u8)
    ensures
        find_from(s, from, b) is Some ==> from <= find_from(s, from, b)->Some_0 < s.len(),
    decreases s.len() - from,
{
    if 0 <= from < s.len() && s[from] != b {
        lemma_find_from_bounds(s, from + 1, b);
    }
}

/// Parse header lines starting at `from` until the empty terminator line:
/// the headers collected so far plus the new ones, and the position just
/// after the terminator.  Lines without a colon are ignored; otherwise
/// the key is the part before the first colon, trimmed and lower-cased,
/// and the value is the rest, trimmed.
pub open spec fn spec_parse_headers(input: Seq<u8>, from: int, acc: Seq<(Seq<u8>, Seq<u8>)>) -> Result<(Seq<(Seq<u8>, Seq<u8>)>, int), ParseError>
    decreases input.len() - from,
    via spec_parse_headers_dec
{
    if from < 0 || from > input.len() {
        Err(ParseError::TruncatedHeaders)
    } else {
        match find_from(input, from, 10) {
            None => Err(ParseError::TruncatedHeaders),
            Some(lf) => {
                let content = spec_line(input, from, lf);
                if content.len() == 0 {
                    Ok((acc, lf + 1))
                } else {
                    match find_from(content, 0, 58) {
                        None => spec_parse_headers(input, lf + 1, acc),
                        Some(c) => {
                            let key = lower_bytes(spec_trim(content.subrange(0, c)));
                            let value = spec_trim(content.subrange(c + 1, content.len() as int));
                            spec_parse_headers(input, lf + 1, spec_upsert_bytes(acc, key, value))
                        },
                    }
                }
            },
        }
    }
}

#[via_fn]
proof fn spec_parse_headers_dec(input: Seq<u8>, from: int, acc: Seq<(Seq<u8>, Seq<u8>)>) {
    lemma_find_from_bounds(input, from, 10);
}

/// The whole request, parsed from raw connection bytes.
pub open spec fn spec_parse_request(input: Seq<u8>) -> Result<RequestModel, ParseError> {
    match find_from(input, 0, 10) {
        None => Err(ParseError::MalformedRequestLine),
        Some(lf) => {
            let line = spec_line(input, 0, lf);
            match find_from(line, 0, 32) {
                None => Err(ParseError::MalformedRequestLine),
                Some(i1) => match find_from(line, i1 + 1, 32) {
                    None => Err(ParseError::MalformedRequestLine),
                    Some(i2) => if find_from(line, i2 + 1, 32) is Some {
                        Err(ParseError::MalformedRequestLine)
                    } else {
                        match spec_method_of(line.subrange(0, i1)) {
                            None => Err(ParseError::UnknownMethod),
                            Some(method) => match spec_parse_headers(input, lf + 1, Seq::empty()) {
                                Err(e) => Err(e),
                                Ok((headers, after)) => {
                                    let path = line.subrange(i1 + 1, i2);
                                    match find_key_bytes(headers, content_length_key()) {
                                        None => Ok(RequestModel { method, path, headers, body: None }),
                                        Some(k) => {
                                            let v = headers[k].1;
                                            if !(v.len() > 0 && all_digits(v) && spec_dec_value(v) <= usize::MAX) {
                                                Err(ParseError::BadContentLength)
                                            } else if spec_dec_value(v) == 0 {
                                                Ok(RequestModel { method, path, headers, body: None })
                                            } else if after + spec_dec_value(v) > input.len() {
                                                Err(ParseError::TruncatedBody)
                                            } else {
                                                Ok(RequestModel {
                                                    method,
                                                    path,
                                                    headers,
                                                    body: Some(input.subrange(after, after + spec_dec_value(v))),
                                                })
                                            }
                                        },
                                    }
                                },
                            },
                        }
                    },
                },
            }
        },
    }
}

/// How a parsed `Request` renders the byte-level model: the method is the
/// same, and path, header keys and values, and body are the model's bytes
/// decoded as (lossy) UTF-8.
pub open spec fn req_matches_model(req: Request, m: RequestModel) -> bool {
    &&& req.method == m.method
    &&& req.path@ == utf8_lossy_of(m.path)
    &&& req.headers@.len() == m.headers.len()
    &&& forall|i: int| 0 <= i < m.headers.len()
        ==> (#[trigger] req.headers@[i]).0@ == utf8_lossy_of(m.headers[i].0)
            && req.headers@[i].1@ == utf8_lossy_of(m.headers[i].1)
    &&& match (req.body, m.body) {
        (Some(b), Some(mb)) => b@ == utf8_lossy_of(mb),
        (None, None) => true,
        _ => false,
    }
}

/// Replace a header, or append a new one, keyed by exact bytes.
#[verifier::loop_isolation(false)]
fn upsert_header(headers: &mut Vec<(Vec<u8>, Vec<u8>)>, key: Vec<u8>, value: Vec<u8>)
    ensures
        hdr_model(final(headers)@) == spec_upsert_bytes(hdr_model(old(headers)@), key@, value@),
{
    let n = headers.len();
    let ghost hs = hdr_model(headers@);
    let mut i: usize = 0;
    while i < n
        invariant
            i <= n,
            n == headers@.len(),
            hs == hdr_model(headers@),
            forall|j: int| 0 <= j < i ==> (#[trigger] hs[j]).0 != key@,
        decreases n - i,
    {
        if bytes_eq(&headers[i].0, &key) {
            proof {
                assert(hs[i as int].0 == key@);
                lemma_find_key_bytes_at(hs, key@, i as int);
            }
            headers.remove(i);
            headers.insert(i, (key, value));
            proof {
                assert(hdr_model(headers@) =~= hs.update(i as int, (key@, value@)));
            }
            return;
        }
        i = i + 1;
    }
    proof {
        lemma_find_key_bytes_none(hs, key@);
    }
    headers.push((key, value));
    proof {
        assert(hdr_model(headers@) =~= hs.push((key@, value@)));
    }
}

/// The `content-length` key as a byte string.
fn content_length_needle() -> (r: Vec<u8>)
    ensures
        r@ == content_length_key(),
{
    let mut r: Vec<u8> = Vec::new();
    r.push(99);
    r.push(111);
    r.push(110);
    r.push(116);
    r.push(101);
    r.push(110);
    r.push(116);
    r.push(45);
    r.push(108);
    r.push(101);
    r.push(110);
    r.push(103);
    r.push(116);
    r.push(104);
    proof {
        assert(r@ =~= content_length_key());
    }
    r
}

/// Parse one request from the raw bytes read off a connection.  Succeeds
/// or fails exactly as [`spec_parse_request`] says; on success the
/// request renders the byte-level model as UTF-8 text.
#[verifier::loop_isolation(false)]
pub fn parse_http_request(input: &[u8]) -> (r: Result<Request, ParseError>)
    ensures
        ({
            let sp = spec_parse_request(input@);
            match r {
                Ok(req) => sp is Ok && req_matches_model(req, sp->Ok_0),
                Err(e) => sp == Err::<RequestModel, ParseError>(e),
            }
        }),
{
    // Request line.
    let lf = match find_byte(input, 0, 10) {
        Some(x) => x,
        None => {
            return Err(ParseError::MalformedRequestLine);
        },
    };
    proof {
        assert(vstd::slice::spec_slice_len(input) == input@.len());
        lemma_find_from_bounds(input@, 0, 10);
    }
    let mut line = subrange_vec(input, 0, lf);
    if line.len() > 0 && line[line.len() - 1] == 13 {
        line.pop();
    }
    proof {
        assert(line@ == spec_line(input@, 0, lf as int));
    }
    let i1 = match find_byte(line.as_slice(), 0, 32) {
        Some(x) => x,
        None => {
            return Err(ParseError::MalformedRequestLine);
        },
    };
    proof {
        lemma_find_from_bounds(line@, 0, 32);
    }
    let i2 = match find_byte(line.as_slice(), i1 + 1, 32) {
        Some(x) => x,
        None => {
            return Err(ParseError::MalformedRequestLine);
        },
    };
    proof {
        lemma_find_from_bounds(line@, i1 + 1, 32);
    }
    match find_byte(line.as_slice(), i2 + 1, 32) {
        Some(_) => {
            return Err(ParseError::MalformedRequestLine);
        },
        None => {},
    }
    let token = subrange_vec(line.as_slice(), 0, i1);
    let method = match HttpMethod::from_token(&token) {
        Some(m) => m,
        None => {
            return Err(ParseError::UnknownMethod);
        },
    };
    let path_bytes = subrange_vec(line.as_slice(), i1 + 1, i2);

    // Header lines, up to the empty terminator line.
    let ghost start: int = lf + 1;
    let mut pos: usize = lf + 1;
    let mut headers: Vec<(Vec<u8>, Vec<u8>)> = Vec::new();
    let mut done = false;
    let mut after: usize = 0;
    proof {
        assert(hdr_model(headers@) =~= Seq::<(Seq<u8>, Seq<u8>)>::empty());
    }
    while !done
        invariant
            pos <= input@.len(),
            !done ==> spec_parse_headers(input@, start, Seq::empty())
                == spec_parse_headers(input@, pos as int, hdr_model(headers@)),
            done ==> spec_parse_headers(input@, start, Seq::empty())
                == Ok::<(Seq<(Seq<u8>, Seq<u8>)>, int), ParseError>((hdr_model(headers@), after as int)),
            done ==> after <= input@.len(),
        decreases 2 * (input@.len() - pos) + (if done { 0int } else { 1int }),
    {
        let lf2 = match find_byte(input, pos, 10) {
            Some(x) => x,
            None => {
                return Err(ParseError::TruncatedHeaders);
            },
        };
        proof {
            lemma_find_from_bounds(input@, pos as int, 10);
        }
        let mut hline = subrange_vec(input, pos, lf2);
        if hline.len() > 0 && hline[hline.len() - 1] == 13 {
            hline.pop();
        }
        proof {
            assert(hline@ == spec_line(input@, pos as int, lf2 as int));
        }
        if hline.len() == 0 {
            after = lf2 + 1;
            done = true;
        } else {
            match find_byte(hline.as_slice(), 0, 58) {
                None => {
                    // A header line without a colon is ignored.
                },
                Some(c) => {
                    proof {
                        lemma_find_from_bounds(hline@, 0, 58);
                    }
                    let raw_key = subrange_vec(hline.as_slice(), 0, c);
                    let trimmed_key = trim_bytes(&raw_key);
                    let key = ascii_lower(&trimmed_key);
                    let raw_value = subrange_vec(hline.as_slice(), c + 1, hline.len());
                    let value = trim_bytes(&raw_value);
                    upsert_header(&mut headers, key, value);
                },
            }
            pos = lf2 + 1;
        }
    }

    // Content length and body.
    let ghost hm = hdr_model(headers@);
    let needle = content_length_needle();
    let n_h = headers.len();
    let mut cl_index: Option<usize> = None;
    let mut i: usize = 0;
    while i < n_h
        invariant
            i <= n_h,
            n_h == hm.len(),
            hm == hdr_model(headers@),
            match cl_index {
                Some(k) => k < i && hm[k as int].0 == content_length_key()
                    && (forall|j: int| 0 <= j < k ==> (#[trigger] hm[j]).0 != content_length_key()),
                None => forall|j: int| 0 <= j < i ==> (#[trigger] hm[j]).0 != content_length_key(),
            },
        decreases n_h - i,
    {
        if cl_index.is_none() && bytes_eq(&headers[i].0, &needle) {
            cl_index = Some(i);
        }
        i = i + 1;
    }
    proof {
        match cl_index {
            Some(k) => {
                lemma_find_key_bytes_at(hm, content_length_key(), k as int);
            },
            None => {
                lemma_find_key_bytes_none(hm, content_length_key());
            },
        }
    }

    // Decode path and headers as text.
    let path = bytes_to_string_lossy(&path_bytes);
    let mut out_headers: Vec<(String, String)> = Vec::new();
    let mut h: usize = 0;
    while h < n_h
        invariant
            h <= n_h,
            n_h == hm.len(),
            hm == hdr_model(headers@),
            out_headers@.len() == h,
            forall|j: int| 0 <= j < h
                ==> (#[trigger] out_headers@[j]).0@ == utf8_lossy_of(hm[j].0)
                    && out_headers@[j].1@ == utf8_lossy_of(hm[j].1),
        decreases n_h - h,
    {
        let k = bytes_to_string_lossy(&headers[h].0);
        let v = bytes_to_string_lossy(&headers[h].1);
        out_headers.push((k, v));
        h = h + 1;
    }

    match cl_index {
        None => Ok(Request { path, method, headers: out_headers, body: None }),
        Some(k) => {
            let content_length = match parse_decimal(&headers[k].1) {
                Some(v) => v,
                None => {
                    return Err(ParseError::BadContentLength);
                },
            };
            if content_length == 0 {
                Ok(Request { path, method, headers: out_headers, body: None })
            } else {
                let end = match after.checked_add(content_length) {
                    Some(e) => e,
                    None => {
                        return Err(ParseError::TruncatedBody);
                    },
                };
                if end > input.len() {
                    return Err(ParseError::TruncatedBody);
                }
                let body_bytes = subrange_vec(input, after, end);
                let body = bytes_to_string_lossy(&body_bytes);
                Ok(Request { path, method, headers: out_headers, body: Some(body) })
            }
        },
    }
}

/// The plain-text rendering of a status and body: status line, a
/// `text/plain` content type, the body's byte length, a blank line, and
/// the body, each line ended by a bare line feed.
pub open spec fn spec_http_response(status: HttpStatus, body: Seq<char>) -> Seq<char> {
    "HTTP/1.1 "@ + status.spec_text() + "\n"@ + "Content-Type: text/plain\n"@ + "Content-Length: "@
        + spec_decimal(encode_utf8(body).len() as int) + "\n\n"@ + body
}

/// Render a status and a plain-text body as a simple response string.
pub fn parse_http_response(status: HttpStatus, body: String) -> (r: String)
    ensures
        r@ == spec_http_response(status, body@),
{
    let mut r = String::from_str("HTTP/1.1 ");
    let status_text = status.to_string();
    r.append(status_text.as_str());
    r.append("\n");
    r.append("Content-Type: text/plain\n");
    r.append("Content-Length: ");
    let body_len = body.as_str().as_bytes().len();
    let length_text = usize_to_string(body_len);
    r.append(length_text.as_str());
    r.append("\n\n");
    r.append(body.as_str());
    proof {
        broadcast use vstd::slice::axiom_spec_len;
        assert(r@ =~= spec_http_response(status, body@));
    }
    r
}

/// If the key at `j` matches and none before it does, `j` is the first match.
proof fn lemma_find_key_bytes_at(hs: Seq<(Seq<u8>, Seq<u8>)>, k: Seq<u8>, j: int)
    requires
        0 <= j < hs.len(),
        hs[j].0 == k,
        forall|i: int| 0 <= i < j ==> (#[trigger] hs[i]).0 != k,
    ensures
        find_key_bytes(hs, k) == Some(j),
    decreases j,
{
    if j > 0 {
        lemma_find_key_bytes_at(hs.drop_first(), k, j - 1);
    }
}

/// If no key matches, the search comes back empty.
proof fn lemma_find_key_bytes_none(hs: Seq<(Seq<u8>, Seq<u8>)>, k: Seq<u8>)
    requires
        forall|i: int| 0 <= i < hs.len() ==> (#[trigger] hs[i]).0 != k,
    ensures
        find_key_bytes(hs, k) is None,
    decreases hs.len(),
{
    if hs.len() != 0 {
        lemma_find_key_bytes_none(hs.drop_first(), k);
    }
}

} // verus!
