//! The response builder and its serialization to the wire.
//!
//! A `Response` collects a status code and headers; `send` turns them and
//! an optional body into the exact text written back on the connection:
//! status line, one line per header with the key folded to lower case, a
//! `content-length` line counting the body's UTF-8 bytes, a blank line,
//! and the body.  Writing those bytes onto the socket is I/O and is left
//! to the embedding program.

use vstd::prelude::*;
use vstd::utf8::encode_utf8;

use crate::http::HttpStatus;
use crate::text::lower_of;
use crate::text::spec_decimal;
use crate::text::to_lowercase;
use crate::text::usize_to_string;

verus! {

/// `send` was called before any status code was set.
#[derive(Clone, Copy, PartialEq, Eq, Structural, Debug)]
pub struct MissingStatusError;

/// An in-progress response: an optional status code and a header mapping.
pub struct Response {
    status_code: Option<HttpStatus>,
    headers: Vec<(String, String)>,
}

/// Index of the first header whose key is `k`, if any.
pub open spec fn find_key(hs: Seq<(Seq<char>, Seq<char>)>, k: Seq<char>) -> Option<int>
    decreases hs.len(),
{
    if hs.len() == 0 {
        None
    } else if hs[0].0 == k {
        Some(0int)
    } else {
        match find_key(hs.drop_first(), k) {
            Some(i) => Some(i + 1),
            None => None,
        }
    }
}

/// The header mapping after setting `k` to `v`: the existing entry is
/// replaced, or a new one appended.
pub open spec fn spec_upsert(hs: Seq<(Seq<char>, Seq<char>)>, k: Seq<char>, v: Seq<char>) -> Seq<(Seq<char>, Seq<char>)> {
    match find_key(hs, k) {
        Some(i) => hs.update(i, (k, v)),
        None => hs.push((k, v)),
    }
}

/// The serialized header block: one `key:value\r\n` line per header, in
/// order, with the key folded to lower case.
pub open spec fn spec_header_lines(hs: Seq<(Seq<char>, Seq<char>)>) -> Seq<char>
    decreases hs.len(),
{
    if hs.len() == 0 {
        Seq::empty()
    } else {
        spec_header_lines(hs.drop_last()) + lower_of(hs.last().0) + ":"@ + hs.last().1 + "\r\n"@
    }
}

/// The full serialized response: status line, header lines, a
/// `content-length` line counting the body's UTF-8 bytes (zero when the
/// body is absent), a blank line, and the body.
pub open spec fn spec_response_wire(status: HttpStatus, hs: Seq<(Seq<char>, Seq<char>)>, body: Option<Seq<char>>) -> Seq<char> {
    let body_chars = match body {
        Some(b) => b,
        None => Seq::<char>::empty(),
    };
    "HTTP/1.1 "@ + status.spec_text() + "\r\n"@ + spec_header_lines(hs) + "content-length:"@
        + spec_decimal(encode_utf8(body_chars).len() as int) + "\r\n"@ + "\r\n"@ + body_chars
}

impl Response {
    /// The status set so far, if any.
    pub closed spec fn spec_status(self) -> Option<HttpStatus> {
        self.status_code
    }

    /// The headers set so far, as (key, value) character sequences.
    pub closed spec fn spec_headers(self) -> Seq<(Seq<char>, Seq<char>)> {
        Seq::new(self.headers@.len(), |i: int| (self.headers@[i].0@, self.headers@[i].1@))
    }

    /// Header keys are unique.
    pub open spec fn wf(self) -> bool {
        forall|i: int, j: int| 0 <= i < j < self.spec_headers().len()
            ==> (#[trigger] self.spec_headers()[i]).0 != (#[trigger] self.spec_headers()[j]).0
    }

    /// A new response with no status and no headers.
    pub fn new() -> (r: Response)
        ensures
            r.wf(),
            r.spec_status() is None,
            r.spec_headers() == Seq::<(Seq<char>, Seq<char>)>::empty(),
    {
        let r = Response { status_code: None, headers: Vec::new() };
        proof {
            assert(r.spec_headers() =~= Seq::<(Seq<char>, Seq<char>)>::empty());
        }
        r
    }

    /// Set the status code, replacing any earlier one.
    pub fn set_status_code(&mut self, status_code: HttpStatus)
        ensures
            final(self).spec_status() == Some(status_code),
            final(self).spec_headers() == old(self).spec_headers(),
            old(self).wf() ==> final(self).wf(),
    {
        self.status_code = Some(status_code);
    }

    /// Set a header, replacing the value of an existing key or appending a
    /// new entry.
    #[verifier::loop_isolation(false)]
    pub fn set_header(&mut self, key: &str, value: &str)
        requires
            old(self).wf(),
        ensures
            final(self).wf(),
            final(self).spec_status() == old(self).spec_status(),
            final(self).spec_headers() == spec_upsert(old(self).spec_headers(), key@, value@),
    {
        let key_string = key.to_owned();
        let value_string = value.to_owned();
        let n = self.headers.len();
        let ghost hs = self.spec_headers();
        let mut i: usize = 0;
        while i < n
            invariant
                i <= n,
                n == self.headers@.len(),
                self.status_code == old(self).status_code,
                hs == self.spec_headers(),
                forall|j: int| 0 <= j < i ==> (#[trigger] hs[j]).0 != key@,
            decreases n - i,
        {
            if self.headers[i].0 == key_string {
                proof {
                    assert(hs[i as int].0 == key@);
                    lemma_find_key_at(hs, key@, i as int);
                }
                self.headers.remove(i);
                self.headers.insert(i, (key_string, value_string));
                proof {
                    assert(self.spec_headers() =~= hs.update(i as int, (key@, value@)));
                }
                return;
            }
            i = i + 1;
        }
        proof {
            lemma_find_key_none(hs, key@);
        }
        self.headers.push((key_string, value_string));
        proof {
            assert(self.spec_headers() =~= hs.push((key@, value@)));
        }
    }

    /// Serialize the response with the given body.  Fails — touching
    /// nothing and producing nothing to write — exactly when no status
    /// code was ever set.
    #[verifier::loop_isolation(false)]
    pub fn send(&self, body: Option<String>) -> (r: Result<String, MissingStatusError>)
        ensures
            r is Ok <==> self.spec_status() is Some,
            match r {
                Ok(out) => out@ == spec_response_wire(
                    self.spec_status()->Some_0,
                    self.spec_headers(),
                    match body {
                        Some(b) => Some(b@),
                        None => None::<Seq<char>>,
                    },
                ),
                Err(e) => e == MissingStatusError,
            },
    {
        let status = match &self.status_code {
            Some(s) => *s,
            None => {
                return Err(MissingStatusError);
            },
        };
        let mut out = String::from_str("HTTP/1.1 ");
        let status_text = status.to_string();
        out.append(status_text.as_str());
        out.append("\r\n");
        let ghost prefix = "HTTP/1.1 "@ + status.spec_text() + "\r\n"@;
        proof {
            assert(out@ =~= prefix + spec_header_lines(self.spec_headers().take(0)));
        }
        let n = self.headers.len();
        let mut i: usize = 0;
        while i < n
            invariant
                i <= n,
                out@ == prefix + spec_header_lines(self.spec_headers().take(i as int)),
            decreases n - i,
        {
            let lowered = to_lowercase(self.headers[i].0.as_str());
            out.append(lowered.as_str());
            out.append(":");
            out.append(self.headers[i].1.as_str());
            out.append("\r\n");
            proof {
                assert(self.spec_headers().take(i + 1).drop_last() =~= self.spec_headers().take(i as int));
                assert(self.spec_headers().take(i + 1).last() == self.spec_headers()[i as int]);
                assert(out@ =~= prefix + spec_header_lines(self.spec_headers().take(i + 1)));
            }
            i = i + 1;
        }
        proof {
            assert(self.spec_headers().take(n as int) =~= self.spec_headers());
        }
        out.append("content-length:");
        let ghost body_chars = match &body {
            Some(b) => b@,
            None => Seq::<char>::empty(),
        };
        let body_len: usize = match &body {
            Some(b) => b.as_str().as_bytes().len(),
            None => 0,
        };
        proof {
            broadcast use vstd::slice::axiom_spec_len;
            assert(encode_utf8(Seq::<char>::empty()) =~= Seq::<u8>::empty());
            assert(body_len == encode_utf8(body_chars).len());
        }
        let length_text = usize_to_string(body_len);
        out.append(length_text.as_str());
        out.append("\r\n");
        out.append("\r\n");
        match &body {
            Some(b) => {
                out.append(b.as_str());
            },
            None => {},
        }
        proof {
            assert(out@ =~= prefix + spec_header_lines(self.spec_headers()) + "content-length:"@
                + spec_decimal(body_len as int) + "\r\n"@ + "\r\n"@ + body_chars);
            assert(out@ =~= spec_response_wire(
                status,
                self.spec_headers(),
                match body {
                    Some(b) => Some(b@),
                    None => None::<Seq<char>>,
                },
            ));
        }
        Ok(out)
    }
}

/// If the key at `j` matches and none before it does, `j` is the first match.
proof fn lemma_find_key_at(hs: Seq<(Seq<char>, Seq<char>)>, k: Seq<char>, j: int)
    requires
        0 <= j < hs.len(),
        hs[j].0 == k,
        forall|i: int| 0 <= i < j ==> (#[trigger] hs[i]).0 != k,
    ensures
        find_key(hs, k) == Some(j),
    decreases j,
{
    if j > 0 {
        lemma_find_key_at(hs.drop_first(), k, j - 1);
    }
}

/// If no key matches, the search comes back empty.
proof fn lemma_find_key_none(hs: Seq<(Seq<char>, Seq<char>)>, k: Seq<char>)
    requires
        forall|i: int| 0 <= i < hs.len() ==> (#[trigger] hs[i]).0 != k,
    ensures
        find_key(hs, k) is None,
    decreases hs.len(),
{
    if hs.len() != 0 {
        lemma_find_key_none(hs.drop_first(), k);
    }
}

} // verus!
