//! HTTP/1.1 framing: the request parser and the response builder.
//!
//! A request is parsed off a buffered byte stream: one request line, a block
//! of `\r\n`-terminated header lines closed by an empty line, then exactly
//! `content-length` body bytes. A response is accumulated as status, headers
//! and body, and serialized to the exact wire format, inserting
//! `Content-Length` when a non-empty body has none.

use vstd::prelude::*;

use crate::bytes::{
    bytes_eq, dec_digits, find_byte, find_byte_from, find_crlf, find_crlf_from, lower_spec,
    parse_len, parse_len_spec, push_decimal, skip_token, skip_token_spec, skip_ws, skip_ws_spec,
    subvec, to_lower, trim_range, trim_spec,
};
use crate::wire;

verus! {

/// Why a request could not be parsed off the wire.
#[derive(Debug, Clone, Copy, PartialEq, Eq, Structural)]
pub enum HttpError {
    /// The request line did not hold three whitespace-separated tokens.
    MalformedRequestLine,
    /// The stream ended before `content-length` body bytes arrived.
    IncompleteBody,
    /// A response body could not be re-encoded.
    EncodingFailed,
}

/// The header mapping, seen as a sequence of key/value pairs in insertion
/// order. Insertion replaces the value of an existing key, so keys are unique
/// and lookups find at most one entry.
pub open spec fn hview(hs: Seq<(Vec<u8>, Vec<u8>)>) -> Seq<(Seq<u8>, Seq<u8>)> {
    Seq::new(hs.len(), |i: int| (hs[i].0@, hs[i].1@))
}

/// Index of the entry with key `k`, if any. Keys are unique, so the first
/// match is the only one.
pub open spec fn key_index(hs: Seq<(Seq<u8>, Seq<u8>)>, k: Seq<u8>) -> Option<int>
    decreases hs.len(),
{
    if hs.len() == 0 {
        None
    } else if hs[0].0 == k {
        Some(0int)
    } else {
        match key_index(hs.drop_first(), k) {
            None => None,
            Some(i) => Some(i + 1),
        }
    }
}

/// `key_index` finds the first entry with key `k`.
pub proof fn lemma_key_index(hs: Seq<(Seq<u8>, Seq<u8>)>, k: Seq<u8>)
    ensures
        match key_index(hs, k) {
            Some(i) => 0 <= i < hs.len() && hs[i].0 == k && forall|j: int|
                0 <= j < i ==> (#[trigger] hs[j]).0 != k,
            None => forall|j: int| 0 <= j < hs.len() ==> (#[trigger] hs[j]).0 != k,
        },
    decreases hs.len(),
{
    if hs.len() > 0 && hs[0].0 != k {
        lemma_key_index(hs.drop_first(), k);
        assert(forall|j: int| 1 <= j < hs.len() ==> hs[j] == hs.drop_first()[j - 1]);
    }
}

/// A key that no entry carries is not found.
pub proof fn lemma_key_index_absent(hs: Seq<(Seq<u8>, Seq<u8>)>, k: Seq<u8>)
    requires
        forall|j: int| 0 <= j < hs.len() ==> (#[trigger] hs[j]).0 != k,
    ensures
        key_index(hs, k) is None,
{
    lemma_key_index(hs, k);
    if let Some(i) = key_index(hs, k) {
        assert(hs[i].0 == k);
        assert(false);
    }
}

/// The value stored under `k`, if any.
pub open spec fn header_get(hs: Seq<(Seq<u8>, Seq<u8>)>, k: Seq<u8>) -> Option<Seq<u8>> {
    match key_index(hs, k) {
        Some(i) => Some(hs[i].1),
        None => None,
    }
}

/// Whether some entry has key `k`.
pub open spec fn has_key(hs: Seq<(Seq<u8>, Seq<u8>)>, k: Seq<u8>) -> bool {
    key_index(hs, k) is Some
}

/// The mapping after setting `k` to `v`: the existing entry is replaced in
/// place, a new key goes to the end.
pub open spec fn header_put(hs: Seq<(Seq<u8>, Seq<u8>)>, k: Seq<u8>, v: Seq<u8>) -> Seq<
    (Seq<u8>, Seq<u8>),
> {
    match key_index(hs, k) {
        Some(i) => hs.update(i, (k, v)),
        None => hs.push((k, v)),
    }
}

/// Lookups after `header_put`: the written key reads back `v`, every other
/// key is untouched.
pub proof fn lemma_header_put_get(hs: Seq<(Seq<u8>, Seq<u8>)>, k: Seq<u8>, v: Seq<u8>, k2: Seq<u8>)
    ensures
        header_get(header_put(hs, k, v), k) == Some(v),
        k2 != k ==> header_get(header_put(hs, k, v), k2) == header_get(hs, k2),
    decreases hs.len(),
{
    lemma_key_index(hs, k);
    lemma_key_index(hs, k2);
    let put = header_put(hs, k, v);
    lemma_key_index(put, k);
    lemma_key_index(put, k2);
    let old_i = key_index(hs, k);
    // Where the written key now sits.
    let at: int = match old_i {
        Some(i) => i,
        None => hs.len() as int,
    };
    assert(put.len() == if old_i is Some { hs.len() as int } else { hs.len() as int + 1 });
    assert(put[at].0 == k);
    assert(forall|j: int| 0 <= j < put.len() && j != at ==> put[j] == hs[j]);
    match key_index(put, k) {
        Some(i2) => {
            if i2 < at {
                assert(put[i2] == hs[i2]);
                assert(hs[i2].0 == k);
                assert(false);
            }
            if at < i2 {
                assert(put[at].0 != k);
                assert(false);
            }
            assert(put[i2].1 == v);
        },
        None => {
            assert(put[at].0 != k);
            assert(false);
        },
    }
    if k2 != k {
        match key_index(hs, k2) {
            Some(j) => {
                assert(j != at);
                assert(put[j].0 == k2);
                match key_index(put, k2) {
                    Some(j2) => {
                        assert(j2 != at);
                        if j2 < j {
                            assert(put[j2] == hs[j2]);
                            assert(hs[j2].0 == k2);
                            assert(false);
                        }
                        if j < j2 {
                            assert(put[j].0 != k2);
                            assert(false);
                        }
                        assert(put[j2].1 == hs[j].1);
                    },
                    None => {
                        assert(put[j].0 != k2);
                        assert(false);
                    },
                }
            },
            None => {
                if let Some(j2) = key_index(put, k2) {
                    assert(j2 != at);
                    assert(put[j2] == hs[j2]);
                    assert(hs[j2].0 == k2);
                    assert(false);
                }
            },
        }
    }
}

/// Look up `k` in an executable header list.
pub fn headers_get<'a>(hs: &'a Vec<(Vec<u8>, Vec<u8>)>, k: &Vec<u8>) -> (r: Option<&'a Vec<u8>>)
    ensures
        match r {
            Some(v) => header_get(hview(hs@), k@) == Some(v@),
            None => header_get(hview(hs@), k@) is None,
        },
{
    proof {
        lemma_key_index(hview(hs@), k@);
    }
    let mut i: usize = 0;
    while i < hs.len()
        invariant
            0 <= i <= hs@.len(),
            forall|j: int| 0 <= j < i ==> (#[trigger] hview(hs@)[j]).0 != k@,
        decreases hs@.len() - i,
    {
        if bytes_eq(&hs[i].0, k) {
            proof {
                assert(hview(hs@)[i as int].0 == k@);
                lemma_key_index(hview(hs@), k@);
                match key_index(hview(hs@), k@) {
                    Some(w) => {
                        assert(!(w < i) && !(i < w));
                    },
                    None => {
                        assert(false);
                    },
                }
            }
            return Some(&hs[i].1);
        }
        proof {
            assert(hview(hs@)[i as int].0 != k@);
        }
        i = i + 1;
    }
    proof {
        lemma_key_index(hview(hs@), k@);
        if let Some(w) = key_index(hview(hs@), k@) {
            assert(hview(hs@)[w].0 == k@);
            assert(false);
        }
    }
    None
}

/// Set `k` to `v` in an executable header list, replacing an existing entry.
pub fn headers_put(hs: &mut Vec<(Vec<u8>, Vec<u8>)>, k: Vec<u8>, v: Vec<u8>)
    ensures
        hview(final(hs)@) == header_put(hview(old(hs)@), k@, v@),
{
    proof {
        lemma_key_index(hview(hs@), k@);
    }
    let mut i: usize = 0;
    while i < hs.len()
        invariant
            0 <= i <= hs@.len(),
            hs@ == old(hs)@,
            forall|j: int| 0 <= j < i ==> (#[trigger] hview(hs@)[j]).0 != k@,
        decreases hs@.len() - i,
    {
        if bytes_eq(&hs[i].0, &k) {
            proof {
                assert(hview(hs@)[i as int].0 == k@);
                lemma_key_index(hview(hs@), k@);
                match key_index(hview(hs@), k@) {
                    Some(w) => {
                        assert(!(w < i) && !(i < w));
                    },
                    None => {
                        assert(false);
                    },
                }
            }
            hs[i] = (k, v);
            proof {
                assert(hview(hs@) =~= header_put(hview(old(hs)@), k@, v@));
            }
            return ;
        }
        proof {
            assert(hview(hs@)[i as int].0 != k@);
        }
        i = i + 1;
    }
    proof {
        lemma_key_index(hview(hs@), k@);
        if let Some(w) = key_index(hview(hs@), k@) {
            assert(hview(hs@)[w].0 == k@);
            assert(false);
        }
    }
    hs.push((k, v));
    proof {
        assert(hview(hs@) =~= header_put(hview(old(hs)@), k@, v@));
    }
}

/// One parsed request, owned by the connection loop for one cycle.
/// Header keys are stored lowercased; lookups are therefore
/// case-insensitive with respect to the wire.
pub struct Request {
    pub method: Vec<u8>,
    pub path: Vec<u8>,
    pub http_version: Vec<u8>,
    pub headers: Vec<(Vec<u8>, Vec<u8>)>,
    pub body: Vec<u8>,
}

/// The mathematical content of a request.
pub struct RequestView {
    pub method: Seq<u8>,
    pub path: Seq<u8>,
    pub http_version: Seq<u8>,
    pub headers: Seq<(Seq<u8>, Seq<u8>)>,
    pub body: Seq<u8>,
}

impl View for Request {
    type V = RequestView;

    open spec fn view(&self) -> RequestView {
        RequestView {
            method: self.method@,
            path: self.path@,
            http_version: self.http_version@,
            headers: hview(self.headers@),
            body: self.body@,
        }
    }
}

/// The three whitespace-separated tokens of a request line, if the line has
/// at least three; tokens past the third are ignored.
pub open spec fn request_line_spec(line: Seq<u8>) -> Option<(Seq<u8>, Seq<u8>, Seq<u8>)> {
    let a1 = skip_ws_spec(line, 0);
    let b1 = skip_token_spec(line, a1);
    let a2 = skip_ws_spec(line, b1);
    let b2 = skip_token_spec(line, a2);
    let a3 = skip_ws_spec(line, b2);
    let b3 = skip_token_spec(line, a3);
    if a1 < b1 && a2 < b2 && a3 < b3 {
        Some((line.subrange(a1, b1), line.subrange(a2, b2), line.subrange(a3, b3)))
    } else {
        None
    }
}

/// The header entry a single line contributes: key before the first `:`,
/// trimmed and lowercased; value after it, trimmed. A line without `:` is
/// ignored.
pub open spec fn header_entry_spec(line: Seq<u8>) -> Option<(Seq<u8>, Seq<u8>)> {
    match find_byte(line, 0, 58) {
        None => None,
        Some(c) => Some(
            (
                lower_spec(trim_spec(line.subrange(0, c))),
                trim_spec(line.subrange(c + 1, line.len() as int)),
            ),
        ),
    }
}

/// Accumulate header lines starting at `pos` until the empty line; yields the
/// final mapping and the index just past the empty line's CRLF. `None` means
/// the block is not yet terminated within `s`.
pub open spec fn parse_headers_spec(
    s: Seq<u8>,
    pos: int,
    acc: Seq<(Seq<u8>, Seq<u8>)>,
) -> Option<(Seq<(Seq<u8>, Seq<u8>)>, int)>
    decreases s.len() - pos when 0 <= pos via parse_headers_spec_dec
{
    match find_crlf(s, pos) {
        None => None,
        Some(e) => {
            if e == pos {
                Some((acc, pos + 2))
            } else {
                let acc2 = match header_entry_spec(s.subrange(pos, e)) {
                    None => acc,
                    Some((k, v)) => header_put(acc, k, v),
                };
                parse_headers_spec(s, e + 2, acc2)
            }
        },
    }
}

#[via_fn]
proof fn parse_headers_spec_dec(s: Seq<u8>, pos: int, acc: Seq<(Seq<u8>, Seq<u8>)>) {
    crate::bytes::lemma_find_crlf(s, pos);
}

/// The declared body length: the value of the `content-length` header, read
/// as a decimal number; absent or unparseable means 0.
pub open spec fn content_len_of(headers: Seq<(Seq<u8>, Seq<u8>)>) -> nat {
    match header_get(headers, wire::content_length_key_lc()) {
        None => 0,
        Some(v) => match parse_len_spec(v) {
            None => 0,
            Some(n) => n,
        },
    }
}

/// What the front of a buffer of received bytes means, mathematically.
pub enum ParseStep {
    /// The buffer does not yet hold one full request; more bytes may
    /// complete it.
    Incomplete,
    /// The stream ended cleanly before any byte of a next request.
    Closed,
    /// One full request, and the number of buffer bytes it spans.
    Done(RequestView, int),
    /// The bytes at the front can never become a request.
    Fail(HttpError),
}

/// Parse one request off the front of `s`. `eof` says that no more bytes
/// will ever arrive, which turns a pending `Incomplete` into an error, or
/// into a clean close when nothing was buffered.
pub open spec fn parse_request_spec(s: Seq<u8>, eof: bool) -> ParseStep {
    match find_crlf(s, 0) {
        None => if !eof {
            ParseStep::Incomplete
        } else if s.len() == 0 {
            ParseStep::Closed
        } else {
            ParseStep::Fail(HttpError::MalformedRequestLine)
        },
        Some(e) => match request_line_spec(s.subrange(0, e)) {
            None => ParseStep::Fail(HttpError::MalformedRequestLine),
            Some((m, p, ver)) => match parse_headers_spec(s, e + 2, Seq::empty()) {
                None => if eof {
                    ParseStep::Fail(HttpError::MalformedRequestLine)
                } else {
                    ParseStep::Incomplete
                },
                Some((hs, body_start)) => {
                    let clen = content_len_of(hs) as int;
                    if body_start + clen <= s.len() {
                        ParseStep::Done(
                            RequestView {
                                method: m,
                                path: p,
                                http_version: ver,
                                headers: hs,
                                body: s.subrange(body_start, body_start + clen),
                            },
                            body_start + clen,
                        )
                    } else if eof {
                        ParseStep::Fail(HttpError::IncompleteBody)
                    } else {
                        ParseStep::Incomplete
                    }
                },
            },
        },
    }
}

/// What `Request::new` found at the front of the buffer.
pub enum ParseOutcome {
    /// More bytes are needed; read again and retry.
    Incomplete,
    /// The peer closed with nothing buffered: the connection is over.
    Closed,
    /// One request, and the number of buffer bytes it consumed.
    Done(Request, usize),
}

impl Request {
    /// Parse one request off the front of `input`, a buffer of everything
    /// received so far; `eof` says the stream has ended. Consuming the
    /// returned byte count from the buffer leaves the next request's bytes
    /// in place.
    pub fn new(input: &Vec<u8>, eof: bool) -> (r: Result<ParseOutcome, HttpError>)
        ensures
            match r {
                Ok(ParseOutcome::Incomplete) => parse_request_spec(input@, eof)
                    == ParseStep::Incomplete,
                Ok(ParseOutcome::Closed) => parse_request_spec(input@, eof) == ParseStep::Closed,
                Ok(ParseOutcome::Done(req, used)) => parse_request_spec(input@, eof)
                    == ParseStep::Done(req@, used as int) && used <= input@.len(),
                Err(e) => parse_request_spec(input@, eof) == ParseStep::Fail(e),
            },
    {
        let buf_len = input.len();
        let line_end = match find_crlf_from(input, 0) {
            None => {
                if !eof {
                    return Ok(ParseOutcome::Incomplete);
                } else if input.len() == 0 {
                    return Ok(ParseOutcome::Closed);
                } else {
                    return Err(HttpError::MalformedRequestLine);
                }
            },
            Some(e) => e,
        };
        let line = subvec(input, 0, line_end);
        let a1 = skip_ws(&line, 0);
        let b1 = skip_token(&line, a1);
        let a2 = skip_ws(&line, b1);
        let b2 = skip_token(&line, a2);
        let a3 = skip_ws(&line, b2);
        let b3 = skip_token(&line, a3);
        if !(a1 < b1 && a2 < b2 && a3 < b3) {
            return Err(HttpError::MalformedRequestLine);
        }
        let method = subvec(&line, a1, b1);
        let path = subvec(&line, a2, b2);
        let http_version = subvec(&line, a3, b3);
        proof {
            assert(request_line_spec(line@) == Some((method@, path@, http_version@)));
        }

        let ghost start: int = line_end + 2;
        let mut pos: usize = line_end + 2;
        let mut headers: Vec<(Vec<u8>, Vec<u8>)> = Vec::new();
        proof {
            assert(hview(headers@) =~= Seq::empty());
        }
        loop
            invariant_except_break
                2 <= pos <= buf_len,
                buf_len == input@.len(),
                find_crlf(input@, 0) == Some(line_end as int),
                request_line_spec(input@.subrange(0, line_end as int)) is Some,
                start == line_end + 2,
                parse_headers_spec(input@, start, Seq::empty()) == parse_headers_spec(
                    input@,
                    pos as int,
                    hview(headers@),
                ),
            ensures
                parse_headers_spec(input@, start, Seq::empty()) == Some(
                    (hview(headers@), pos as int),
                ),
                2 <= pos <= buf_len,
                buf_len == input@.len(),
            decreases input@.len() - pos,
        {
            let e2 = match find_crlf_from(input, pos) {
                None => {
                    proof {
                        assert(parse_headers_spec(input@, pos as int, hview(headers@)) is None);
                    }
                    if eof {
                        return Err(HttpError::MalformedRequestLine);
                    } else {
                        return Ok(ParseOutcome::Incomplete);
                    }
                },
                Some(e2) => e2,
            };
            if e2 == pos {
                proof {
                    assert(parse_headers_spec(input@, pos as int, hview(headers@)) == Some(
                        (hview(headers@), pos + 2int),
                    ));
                }
                pos = pos + 2;
                break ;
            }
            let ghost hs_before = hview(headers@);
            let line2 = subvec(input, pos, e2);
            match find_byte_from(&line2, 0, 58) {
                None => {
                    proof {
                        assert(header_entry_spec(line2@) is None);
                    }
                },
                Some(c) => {
                    let key_raw = trim_range(&line2, 0, c);
                    let key = to_lower(&key_raw);
                    let value = trim_range(&line2, c + 1, line2.len());
                    proof {
                        assert(header_entry_spec(line2@) == Some((key@, value@)));
                    }
                    headers_put(&mut headers, key, value);
                },
            }
            proof {
                assert(parse_headers_spec(input@, pos as int, hs_before) == parse_headers_spec(
                    input@,
                    e2 + 2int,
                    hview(headers@),
                ));
            }
            pos = e2 + 2;
        }

        let content_length: usize = {
            let key = wire::content_length_key_lc_vec();
            match headers_get(&headers, &key) {
                None => 0,
                Some(v) => match parse_len(v) {
                    None => 0,
                    Some(n) => n,
                },
            }
        };
        proof {
            assert(content_len_of(hview(headers@)) == content_length as nat);
        }
        if content_length > buf_len - pos {
            if eof {
                return Err(HttpError::IncompleteBody);
            } else {
                return Ok(ParseOutcome::Incomplete);
            }
        }
        let body = subvec(input, pos, pos + content_length);
        let used = pos + content_length;
        let ghost hs_final = hview(headers@);
        let req = Request { method, path, http_version, headers, body };
        proof {
            assert(req@.headers == hs_final);
            assert(parse_request_spec(input@, eof) == ParseStep::Done(req@, used as int));
        }
        Ok(ParseOutcome::Done(req, used))
    }
}

/// The request asked for the connection to be closed after the response:
/// a `connection` header with the exact value `close`.
pub open spec fn connection_close_spec(r: RequestView) -> bool {
    header_get(r.headers, wire::connection_key_lc()) == Some(wire::close_value())
}

impl Request {
    /// Whether this request carries `Connection: close`.
    pub fn connection_close_exist(&self) -> (r: bool)
        ensures
            r == connection_close_spec(self@),
    {
        let key = wire::connection_key_lc_vec();
        match headers_get(&self.headers, &key) {
            None => false,
            Some(v) => {
                let close = wire::close_value_vec();
                bytes_eq(v, &close)
            },
        }
    }
}

/// An outgoing response while it is being built.
pub struct Response {
    status_code: u16,
    status_text: Vec<u8>,
    headers: Vec<(Vec<u8>, Vec<u8>)>,
    body: Vec<u8>,
}

/// The mathematical content of a response.
pub struct ResponseView {
    pub status_code: u16,
    pub status_text: Seq<u8>,
    pub headers: Seq<(Seq<u8>, Seq<u8>)>,
    pub body: Seq<u8>,
}

impl View for Response {
    type V = ResponseView;

    closed spec fn view(&self) -> ResponseView {
        ResponseView {
            status_code: self.status_code,
            status_text: self.status_text@,
            headers: hview(self.headers@),
            body: self.body@,
        }
    }
}

/// The headers a response is serialized with: `Content-Length` is inserted
/// when the body is non-empty and no `Content-Length` was set by the caller;
/// an explicit one is never overwritten.
pub open spec fn with_auto_content_length(r: ResponseView) -> ResponseView {
    if r.body.len() > 0 && !has_key(r.headers, wire::content_length_key()) {
        ResponseView {
            headers: header_put(r.headers, wire::content_length_key(), dec_digits(r.body.len())),
            ..r
        }
    } else {
        r
    }
}

/// The header block on the wire: each entry as `key: value` and a CRLF, in
/// stored order.
pub open spec fn serialize_headers(hs: Seq<(Seq<u8>, Seq<u8>)>) -> Seq<u8>
    decreases hs.len(),
{
    if hs.len() == 0 {
        Seq::empty()
    } else {
        hs[0].0 + wire::header_sep() + hs[0].1 + wire::crlf() + serialize_headers(hs.drop_first())
    }
}

/// Appending one entry appends its line.
pub proof fn lemma_serialize_headers_push(hs: Seq<(Seq<u8>, Seq<u8>)>, e: (Seq<u8>, Seq<u8>))
    ensures
        serialize_headers(hs.push(e)) == serialize_headers(hs) + e.0 + wire::header_sep() + e.1
            + wire::crlf(),
    decreases hs.len(),
{
    if hs.len() == 0 {
        assert(hs.push(e).drop_first() =~= Seq::<(Seq<u8>, Seq<u8>)>::empty());
        assert(hs.push(e)[0] == e);
        assert(serialize_headers(Seq::<(Seq<u8>, Seq<u8>)>::empty()) == Seq::<u8>::empty());
        assert(serialize_headers(hs.push(e)) == e.0 + wire::header_sep() + e.1 + wire::crlf()
            + Seq::<u8>::empty());
        assert(serialize_headers(hs.push(e)) =~= serialize_headers(hs) + e.0 + wire::header_sep()
            + e.1 + wire::crlf());
    } else {
        lemma_serialize_headers_push(hs.drop_first(), e);
        assert(hs.push(e).drop_first() =~= hs.drop_first().push(e));
        assert(hs.push(e)[0] == hs[0]);
        assert(serialize_headers(hs.push(e)) == hs[0].0 + wire::header_sep() + hs[0].1
            + wire::crlf() + serialize_headers(hs.drop_first().push(e)));
        assert(serialize_headers(hs) == hs[0].0 + wire::header_sep() + hs[0].1 + wire::crlf()
            + serialize_headers(hs.drop_first()));
        assert(serialize_headers(hs.push(e)) =~= serialize_headers(hs) + e.0 + wire::header_sep()
            + e.1 + wire::crlf());
    }
}

/// The exact bytes of a response on the wire: status line, header block,
/// blank line, body.
pub open spec fn serialize_spec(r: ResponseView) -> Seq<u8> {
    wire::http_version_prefix() + dec_digits(r.status_code as nat) + seq![32u8] + r.status_text
        + wire::crlf() + serialize_headers(r.headers) + wire::crlf() + r.body
}

impl Response {
    /// A response with the given status line and no headers or body.
    pub fn new(status_code: u16, status_text: String) -> (r: Response)
        ensures
            r@.status_code == status_code,
            r@.status_text == vstd::utf8::encode_utf8(status_text@),
            r@.headers == Seq::<(Seq<u8>, Seq<u8>)>::empty(),
            r@.body == Seq::<u8>::empty(),
    {
        let r = Response {
            status_code,
            status_text: status_text.as_str().as_bytes_vec(),
            headers: Vec::new(),
            body: Vec::new(),
        };
        proof {
            assert(hview(r.headers@) =~= Seq::<(Seq<u8>, Seq<u8>)>::empty());
        }
        r
    }

    /// A response with the given status line, from raw status-text bytes.
    pub(crate) fn new_bytes(status_code: u16, status_text: Vec<u8>) -> (r: Response)
        ensures
            r@.status_code == status_code,
            r@.status_text == status_text@,
            r@.headers == Seq::<(Seq<u8>, Seq<u8>)>::empty(),
            r@.body == Seq::<u8>::empty(),
    {
        let r = Response { status_code, status_text, headers: Vec::new(), body: Vec::new() };
        proof {
            assert(hview(r.headers@) =~= Seq::<(Seq<u8>, Seq<u8>)>::empty());
        }
        r
    }

    /// Set the body.
    pub fn body(self, body: Vec<u8>) -> (r: Response)
        ensures
            r@ == (ResponseView { body: body@, ..self@ }),
    {
        Response { body, ..self }
    }

    /// Set a header, replacing any existing value under the same key.
    pub fn header(self, key: &str, value: String) -> (r: Response)
        ensures
            r@ == (ResponseView {
                headers: header_put(
                    self@.headers,
                    vstd::utf8::encode_utf8(key@),
                    vstd::utf8::encode_utf8(value@),
                ),
                ..self@
            }),
    {
        self.header_bytes(key.as_bytes_vec(), value.as_str().as_bytes_vec())
    }

    /// Set a header from raw bytes, replacing any existing value under the
    /// same key.
    pub(crate) fn header_bytes(self, key: Vec<u8>, value: Vec<u8>) -> (r: Response)
        ensures
            r@ == (ResponseView { headers: header_put(self@.headers, key@, value@), ..self@ }),
    {
        let mut this = self;
        headers_put(&mut this.headers, key, value);
        this
    }

    /// Insert `Connection: close`, replacing any existing `Connection` value.
    pub fn add_connection_close_header(&mut self)
        ensures
            final(self)@ == (ResponseView {
                headers: header_put(
                    old(self)@.headers,
                    wire::connection_key(),
                    wire::close_value(),
                ),
                ..old(self)@
            }),
    {
        let key = wire::connection_key_vec();
        let value = wire::close_value_vec();
        headers_put(&mut self.headers, key, value);
    }

    /// Whether a header with exactly this key was set.
    pub fn has_header(&self, key: &Vec<u8>) -> (r: bool)
        ensures
            r == has_key(self@.headers, key@),
    {
        headers_get(&self.headers, key).is_some()
    }

    /// Serialize to the exact wire bytes, inserting `Content-Length` for a
    /// non-empty body unless one was set.
    pub fn into_bytes(self) -> (r: Vec<u8>)
        ensures
            r@ == serialize_spec(with_auto_content_length(self@)),
    {
        let ghost v0 = self@;
        let mut this = self;
        if this.body.len() > 0 {
            let key = wire::content_length_key_vec();
            if headers_get(&this.headers, &key).is_none() {
                let mut len_bytes: Vec<u8> = Vec::new();
                push_decimal(this.body.len(), &mut len_bytes);
                headers_put(&mut this.headers, key, len_bytes);
            }
        }
        proof {
            assert(this@ == with_auto_content_length(v0));
        }
        let mut out = wire::http_version_prefix_vec();
        push_decimal(this.status_code as usize, &mut out);
        out.push(32);
        crate::bytes::append_bytes(&mut out, &this.status_text);
        let crlf = wire::crlf_vec();
        crate::bytes::append_bytes(&mut out, &crlf);
        let ghost status_part = wire::http_version_prefix() + dec_digits(this@.status_code as nat)
            + seq![32u8] + this@.status_text + wire::crlf();
        proof {
            assert(out@ =~= status_part);
        }
        let sep = wire::header_sep_vec();
        let mut i: usize = 0;
        while i < this.headers.len()
            invariant
                0 <= i <= this.headers@.len(),
                sep@ == wire::header_sep(),
                crlf@ == wire::crlf(),
                out@ == status_part + serialize_headers(hview(this.headers@).take(i as int)),
            decreases this.headers@.len() - i,
        {
            crate::bytes::append_bytes(&mut out, &this.headers[i].0);
            crate::bytes::append_bytes(&mut out, &sep);
            crate::bytes::append_bytes(&mut out, &this.headers[i].1);
            crate::bytes::append_bytes(&mut out, &crlf);
            proof {
                let hs = hview(this.headers@);
                lemma_serialize_headers_push(hs.take(i as int), hs[i as int]);
                assert(hs.take(i as int).push(hs[i as int]) =~= hs.take(i + 1));
                assert(out@ =~= status_part + serialize_headers(hs.take(i + 1)));
            }
            i = i + 1;
        }
        proof {
            assert(hview(this.headers@).take(this.headers@.len() as int) =~= hview(
                this.headers@,
            ));
        }
        crate::bytes::append_bytes(&mut out, &crlf);
        crate::bytes::append_bytes(&mut out, &this.body);
        proof {
            assert(out@ =~= serialize_spec(with_auto_content_length(v0)));
        }
        out
    }
}

/// A parsed header block starts after at least one CRLF and ends within the
/// buffer.
pub proof fn lemma_parse_headers_bounds(s: Seq<u8>, pos: int, acc: Seq<(Seq<u8>, Seq<u8>)>)
    requires
        0 <= pos,
    ensures
        parse_headers_spec(s, pos, acc) matches Some((hs, b)) ==> pos + 2 <= b <= s.len(),
    decreases s.len() - pos,
{
    crate::bytes::lemma_find_crlf(s, pos);
    match find_crlf(s, pos) {
        None => {},
        Some(e) => {
            if e != pos {
                let acc2 = match header_entry_spec(s.subrange(pos, e)) {
                    None => acc,
                    Some((k, v)) => header_put(acc, k, v),
                };
                lemma_parse_headers_bounds(s, e + 2, acc2);
            }
        },
    }
}

/// Parsing law: a request that parses carries exactly the declared number of
/// body bytes, and spans no more than the buffer; a finished header block
/// whose declared body bytes never arrive makes parsing fail with
/// `IncompleteBody` once the stream has ended.
pub proof fn lemma_parsed_body_length(s: Seq<u8>, eof: bool)
    ensures
        parse_request_spec(s, eof) matches ParseStep::Done(req, used) ==> req.body.len()
            == content_len_of(req.headers) && used <= s.len(),
        (match find_crlf(s, 0) {
            Some(e) => request_line_spec(s.subrange(0, e)) is Some ==> (match parse_headers_spec(
                s,
                e + 2,
                Seq::empty(),
            ) {
                Some((hs, body_start)) => (eof && s.len() < body_start + content_len_of(hs))
                    ==> parse_request_spec(s, eof) == ParseStep::Fail(HttpError::IncompleteBody),
                None => true,
            }),
            None => true,
        }),
{
    crate::bytes::lemma_find_crlf(s, 0);
    if let Some(e) = find_crlf(s, 0) {
        lemma_parse_headers_bounds(s, e + 2, Seq::empty());
    }
}

/// Serialization is a function of the response value alone: two responses
/// with the same content go onto the wire byte-identically, however they
/// were built. With `into_bytes`'s contract, serializing twice from equal
/// responses yields identical output.
pub proof fn lemma_serialize_deterministic(r1: ResponseView, r2: ResponseView)
    requires
        r1 == r2,
    ensures
        serialize_spec(with_auto_content_length(r1)) == serialize_spec(
            with_auto_content_length(r2),
        ),
{
}

/// A terminated header block is unchanged by bytes that arrive after it.
pub proof fn lemma_parse_headers_extension(
    s: Seq<u8>,
    t: Seq<u8>,
    pos: int,
    acc: Seq<(Seq<u8>, Seq<u8>)>,
)
    requires
        0 <= pos,
        parse_headers_spec(s, pos, acc) is Some,
    ensures
        parse_headers_spec(s + t, pos, acc) == parse_headers_spec(s, pos, acc),
    decreases s.len() - pos,
{
    crate::bytes::lemma_find_crlf(s, pos);
    match find_crlf(s, pos) {
        None => {
            assert(false);
        },
        Some(e) => {
            crate::bytes::lemma_find_crlf_extension(s, t, pos);
            if e != pos {
                assert((s + t).subrange(pos, e) =~= s.subrange(pos, e));
                let acc2 = match header_entry_spec(s.subrange(pos, e)) {
                    None => acc,
                    Some((k, v)) => header_put(acc, k, v),
                };
                lemma_parse_headers_extension(s, t, e + 2, acc2);
            }
        },
    }
}

/// Buffering law: a request parsed off the front of a buffer is what it is
/// regardless of the bytes that arrive after it and of whether the stream
/// has since ended. Sequential requests on one connection are therefore
/// independent: the first request is fixed once its own bytes are in, and
/// the next one is parsed from exactly the bytes that follow it.
pub proof fn lemma_parse_extension(s: Seq<u8>, t: Seq<u8>, eof: bool, eof2: bool)
    requires
        parse_request_spec(s, eof) is Done,
    ensures
        parse_request_spec(s + t, eof2) == parse_request_spec(s, eof),
{
    crate::bytes::lemma_find_crlf(s, 0);
    match find_crlf(s, 0) {
        None => {
            assert(false);
        },
        Some(e) => {
            crate::bytes::lemma_find_crlf_extension(s, t, 0);
            assert((s + t).subrange(0, e) =~= s.subrange(0, e));
            match parse_headers_spec(s, e + 2, Seq::empty()) {
                None => {
                    assert(false);
                },
                Some((hs, body_start)) => {
                    lemma_parse_headers_extension(s, t, e + 2, Seq::empty());
                    lemma_parse_headers_bounds(s, e + 2, Seq::empty());
                    let clen = content_len_of(hs) as int;
                    assert(body_start + clen <= s.len());
                    assert((s + t).subrange(body_start, body_start + clen) =~= s.subrange(
                        body_start,
                        body_start + clen,
                    ));
                },
            }
        },
    }
}

/// Serialization law: a response with a non-empty body and no caller-set
/// `Content-Length` goes onto the wire with a `Content-Length` header whose
/// value is the decimal rendering of the body's byte length; the body itself
/// and every other header are untouched. Together with `into_bytes` being a
/// function of the response value, serializing equal responses yields
/// byte-identical output.
pub proof fn lemma_auto_content_length(r: ResponseView)
    requires
        r.body.len() > 0,
        !has_key(r.headers, wire::content_length_key()),
    ensures
        header_get(with_auto_content_length(r).headers, wire::content_length_key()) == Some(
            dec_digits(r.body.len()),
        ),
        with_auto_content_length(r).body == r.body,
        forall|k: Seq<u8>|
            k != wire::content_length_key() ==> header_get(
                with_auto_content_length(r).headers,
                k,
            ) == header_get(r.headers, k),
{
    assert forall|k: Seq<u8>| k != wire::content_length_key() implies header_get(
        with_auto_content_length(r).headers,
        k,
    ) == header_get(r.headers, k) by {
        lemma_header_put_get(r.headers, wire::content_length_key(), dec_digits(r.body.len()), k);
    }
    lemma_header_put_get(
        r.headers,
        wire::content_length_key(),
        dec_digits(r.body.len()),
        wire::content_length_key(),
    );
}

} // verus!
