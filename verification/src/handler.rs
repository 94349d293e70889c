//! Route dispatch: map one parsed request to a response, or to the
//! file-system action the caller must perform. The four routes are the echo
//! endpoint (with gzip content negotiation), user-agent reflection, file
//! read, and file write; everything else is 404. File reads and writes are
//! I/O and stay with the caller: the dispatcher names the file, and
//! `file_get_response` / `file_post_response` turn the outcome into the
//! response.

use vstd::prelude::*;

use crate::bytes::{contains_bytes, contains_seq, has_prefix, has_prefix_spec, subvec};
use crate::http::{
    header_get, headers_get, HttpError, Request, RequestView, Response, ResponseView,
};
use crate::wire;

verus! {

/// The routes, in the precedence order they are tried.
#[derive(Debug, Clone, Copy, PartialEq, Eq, Structural)]
pub enum Route {
    Root,
    UserAgent,
    Echo,
    FileGet,
    FilePost,
    NotFound,
}

/// Which route a method and path resolve to; the first match wins.
pub open spec fn route_spec(method: Seq<u8>, path: Seq<u8>) -> Route {
    if method == wire::method_get() && path == wire::root_path() {
        Route::Root
    } else if method == wire::method_get() && path == wire::user_agent_path() {
        Route::UserAgent
    } else if method == wire::method_get() && has_prefix_spec(path, wire::echo_prefix()) {
        Route::Echo
    } else if method == wire::method_get() && has_prefix_spec(path, wire::files_prefix()) {
        Route::FileGet
    } else if method == wire::method_post() && has_prefix_spec(path, wire::files_prefix()) {
        Route::FilePost
    } else {
        Route::NotFound
    }
}

/// The echo payload: the path after `/echo/`.
pub open spec fn echo_content_spec(path: Seq<u8>) -> Seq<u8> {
    path.subrange(wire::echo_prefix().len() as int, path.len() as int)
}

/// The file name of a `/files/` route: the path after the prefix.
pub open spec fn file_name_spec(path: Seq<u8>) -> Seq<u8> {
    path.subrange(wire::files_prefix().len() as int, path.len() as int)
}

/// The request accepts gzip: its `accept-encoding` value contains `gzip`.
pub open spec fn wants_gzip_spec(headers: Seq<(Seq<u8>, Seq<u8>)>) -> bool {
    match header_get(headers, wire::accept_encoding_key_lc()) {
        None => false,
        Some(v) => contains_seq(v, wire::gzip_token()),
    }
}

/// What flate2's gzip encoder produces for the given bytes at the default
/// compression level: a function of the input alone, since the header it
/// writes carries no timestamp and a fixed operating-system byte.
pub uninterp spec fn gzip_of(data: Seq<u8>) -> Seq<u8>;

/// Relies on flate2::write::GzEncoder at Compression::default(), writing
/// into a Vec: write_all and finish yield the gzip encoding of `data`. The
/// Vec sink itself never fails, so an error can only come from the
/// compressor, and is reported as None.
#[verifier::external_body]
fn gzip_compress(data: &Vec<u8>) -> (r: Option<Vec<u8>>)
    ensures
        r matches Some(out) ==> out@ == gzip_of(data@),
{
    let mut enc = flate2::write::GzEncoder::new(Vec::new(), flate2::Compression::default());
    if std::io::Write::write_all(&mut enc, data.as_slice()).is_err() {
        return None;
    }
    match enc.finish() {
        Ok(v) => Some(v),
        Err(_) => None,
    }
}

/// The `200 OK` response of `GET /`: no headers, empty body.
pub open spec fn root_response_spec() -> ResponseView {
    ResponseView {
        status_code: 200,
        status_text: wire::ok_text(),
        headers: Seq::empty(),
        body: Seq::empty(),
    }
}

/// The `404 Not Found` response: no headers, empty body.
pub open spec fn not_found_response_spec() -> ResponseView {
    ResponseView {
        status_code: 404,
        status_text: wire::not_found_text(),
        headers: Seq::empty(),
        body: Seq::empty(),
    }
}

/// The `GET /user-agent` response: the request's `user-agent` value, echoed
/// verbatim as `text/plain`; an absent header echoes as the empty string.
pub open spec fn user_agent_response_spec(headers: Seq<(Seq<u8>, Seq<u8>)>) -> ResponseView {
    let ua = match header_get(headers, wire::user_agent_key_lc()) {
        None => Seq::<u8>::empty(),
        Some(v) => v,
    };
    ResponseView {
        status_code: 200,
        status_text: wire::ok_text(),
        headers: seq![(wire::content_type_key(), wire::text_plain())],
        body: ua,
    }
}

/// The plain echo response: the payload as `text/plain`.
pub open spec fn echo_plain_response_spec(content: Seq<u8>) -> ResponseView {
    ResponseView {
        status_code: 200,
        status_text: wire::ok_text(),
        headers: seq![(wire::content_type_key(), wire::text_plain())],
        body: content,
    }
}

/// The gzip echo response: the payload's gzip encoding, marked by
/// `Content-Encoding: gzip`.
pub open spec fn echo_gzip_response_spec(content: Seq<u8>) -> ResponseView {
    ResponseView {
        status_code: 200,
        status_text: wire::ok_text(),
        headers: seq![
            (wire::content_type_key(), wire::text_plain()),
            (wire::content_encoding_key(), wire::gzip_token()),
        ],
        body: gzip_of(content),
    }
}

/// The response to a file read: the bytes as `application/octet-stream`, or
/// `404 Not Found` when the file does not exist.
pub open spec fn file_get_response_spec(contents: Option<Seq<u8>>) -> ResponseView {
    match contents {
        Some(data) => ResponseView {
            status_code: 200,
            status_text: wire::ok_text(),
            headers: seq![(wire::content_type_key(), wire::octet_stream())],
            body: data,
        },
        None => not_found_response_spec(),
    }
}

/// The `201 Created` response to a completed file write.
pub open spec fn file_post_response_spec() -> ResponseView {
    ResponseView {
        status_code: 201,
        status_text: wire::created_text(),
        headers: Seq::empty(),
        body: Seq::empty(),
    }
}

/// What the dispatcher hands back: a finished response, or the file-system
/// action the caller must perform.
pub enum DispatchStep {
    /// Send this response.
    Respond(Response),
    /// Read the file with this name under the serving directory and build
    /// the response with `file_get_response`.
    ReadFile(Vec<u8>),
    /// Write the bytes to the file with this name under the serving
    /// directory; on success respond with `file_post_response`.
    WriteFile(Vec<u8>, Vec<u8>),
}

/// The mathematical content of a dispatch step.
pub enum DispatchSpec {
    Respond(ResponseView),
    ReadFile(Seq<u8>),
    WriteFile(Seq<u8>, Seq<u8>),
}

impl View for DispatchStep {
    type V = DispatchSpec;

    open spec fn view(&self) -> DispatchSpec {
        match self {
            DispatchStep::Respond(r) => DispatchSpec::Respond(r@),
            DispatchStep::ReadFile(name) => DispatchSpec::ReadFile(name@),
            DispatchStep::WriteFile(name, data) => DispatchSpec::WriteFile(name@, data@),
        }
    }
}

/// What `handle_request` decides for a request, per the routing table.
pub open spec fn dispatch_spec(r: RequestView) -> DispatchSpec {
    match route_spec(r.method, r.path) {
        Route::Root => DispatchSpec::Respond(root_response_spec()),
        Route::UserAgent => DispatchSpec::Respond(user_agent_response_spec(r.headers)),
        Route::Echo => {
            let content = echo_content_spec(r.path);
            if wants_gzip_spec(r.headers) {
                DispatchSpec::Respond(echo_gzip_response_spec(content))
            } else {
                DispatchSpec::Respond(echo_plain_response_spec(content))
            }
        },
        Route::FileGet => DispatchSpec::ReadFile(file_name_spec(r.path)),
        Route::FilePost => DispatchSpec::WriteFile(file_name_spec(r.path), r.body),
        Route::NotFound => DispatchSpec::Respond(not_found_response_spec()),
    }
}

/// Resolve the route of a request.
pub fn route_of(req: &Request) -> (r: Route)
    ensures
        r == route_spec(req@.method, req@.path),
{
    let get = wire::method_get_vec();
    let post = wire::method_post_vec();
    let is_get = crate::bytes::bytes_eq(&req.method, &get);
    let is_post = crate::bytes::bytes_eq(&req.method, &post);
    if is_get {
        let root = wire::root_path_vec();
        if crate::bytes::bytes_eq(&req.path, &root) {
            return Route::Root;
        }
        let ua = wire::user_agent_path_vec();
        if crate::bytes::bytes_eq(&req.path, &ua) {
            return Route::UserAgent;
        }
        let echo = wire::echo_prefix_vec();
        if has_prefix(&req.path, &echo) {
            return Route::Echo;
        }
        let files = wire::files_prefix_vec();
        if has_prefix(&req.path, &files) {
            return Route::FileGet;
        }
        return Route::NotFound;
    }
    if is_post {
        let files = wire::files_prefix_vec();
        if has_prefix(&req.path, &files) {
            return Route::FilePost;
        }
        return Route::NotFound;
    }
    Route::NotFound
}

/// Dispatch one request. Every route is answered; only the echo route with
/// gzip negotiation can fail, when the encoder does, and that failure is
/// reported rather than answered.
pub fn handle_request(req: &Request) -> (r: Result<DispatchStep, HttpError>)
    ensures
        r matches Ok(d) ==> d@ == dispatch_spec(req@),
        r matches Err(e) ==> e == HttpError::EncodingFailed && route_spec(req@.method, req@.path)
            == Route::Echo && wants_gzip_spec(req@.headers),
{
    match route_of(req) {
        Route::Root => Ok(DispatchStep::Respond(Response::new_bytes(200, wire::ok_text_vec()))),
        Route::UserAgent => {
            let key = wire::user_agent_key_lc_vec();
            let ua: Vec<u8> = match headers_get(&req.headers, &key) {
                None => Vec::new(),
                Some(v) => subvec(v, 0, v.len()),
            };
            proof {
                if let Some(v) = header_get(req@.headers, wire::user_agent_key_lc()) {
                    assert(ua@ =~= v);
                } else {
                    assert(ua@ =~= Seq::<u8>::empty());
                }
            }
            let resp = Response::new_bytes(200, wire::ok_text_vec()).header_bytes(
                wire::content_type_key_vec(),
                wire::text_plain_vec(),
            ).body(ua);
            proof {
                assert(resp@.headers =~= user_agent_response_spec(req@.headers).headers);
            }
            Ok(DispatchStep::Respond(resp))
        },
        Route::Echo => {
            let prefix_len = wire::echo_prefix_vec().len();
            let content = subvec(&req.path, prefix_len, req.path.len());
            let key = wire::accept_encoding_key_lc_vec();
            let gzip = wire::gzip_token_vec();
            let wants_gzip = match headers_get(&req.headers, &key) {
                None => false,
                Some(v) => contains_bytes(v, &gzip),
            };
            if wants_gzip {
                let compressed = match gzip_compress(&content) {
                    None => {
                        return Err(HttpError::EncodingFailed);
                    },
                    Some(c) => c,
                };
                let resp = Response::new_bytes(200, wire::ok_text_vec()).header_bytes(
                    wire::content_type_key_vec(),
                    wire::text_plain_vec(),
                ).header_bytes(wire::content_encoding_key_vec(), wire::gzip_token_vec()).body(
                    compressed,
                );
                proof {
                    let first = crate::http::header_put(
                        Seq::empty(),
                        wire::content_type_key(),
                        wire::text_plain(),
                    );
                    assert(first =~= seq![(wire::content_type_key(), wire::text_plain())]);
                    assert(wire::content_encoding_key()[8] != wire::content_type_key()[8]);
                    assert(forall|j: int|
                        0 <= j < first.len() ==> (#[trigger] first[j]).0
                            != wire::content_encoding_key());
                    crate::http::lemma_key_index_absent(first, wire::content_encoding_key());
                    assert(resp@.headers =~= echo_gzip_response_spec(content@).headers);
                }
                Ok(DispatchStep::Respond(resp))
            } else {
                let resp = Response::new_bytes(200, wire::ok_text_vec()).header_bytes(
                    wire::content_type_key_vec(),
                    wire::text_plain_vec(),
                ).body(content);
                proof {
                    assert(resp@.headers =~= echo_plain_response_spec(
                        echo_content_spec(req@.path),
                    ).headers);
                }
                Ok(DispatchStep::Respond(resp))
            }
        },
        Route::FileGet => {
            let prefix_len = wire::files_prefix_vec().len();
            let name = subvec(&req.path, prefix_len, req.path.len());
            Ok(DispatchStep::ReadFile(name))
        },
        Route::FilePost => {
            let prefix_len = wire::files_prefix_vec().len();
            let name = subvec(&req.path, prefix_len, req.path.len());
            let body = subvec(&req.body, 0, req.body.len());
            proof {
                assert(body@ =~= req@.body);
            }
            Ok(DispatchStep::WriteFile(name, body))
        },
        Route::NotFound => Ok(
            DispatchStep::Respond(Response::new_bytes(404, wire::not_found_text_vec())),
        ),
    }
}

/// Build the response to a file read: the caller hands in the file's bytes,
/// or `None` when the file does not exist.
pub fn file_get_response(contents: Option<Vec<u8>>) -> (r: Response)
    ensures
        r@ == file_get_response_spec(
            match contents {
                Some(data) => Some(data@),
                None => None,
            },
        ),
{
    match contents {
        Some(data) => {
            let resp = Response::new_bytes(200, wire::ok_text_vec()).header_bytes(
                wire::content_type_key_vec(),
                wire::octet_stream_vec(),
            ).body(data);
            proof {
                assert(resp@.headers =~= seq![(wire::content_type_key(), wire::octet_stream())]);
            }
            resp
        },
        None => Response::new_bytes(404, wire::not_found_text_vec()),
    }
}

/// Build the `201 Created` response to a completed file write.
pub fn file_post_response() -> (r: Response)
    ensures
        r@ == file_post_response_spec(),
{
    Response::new_bytes(201, wire::created_text_vec())
}

/// Echo law: a GET of `/echo/` followed by any payload, without gzip in
/// `accept-encoding`, is answered 200 with exactly the payload as its body.
pub proof fn lemma_echo_plain(r: RequestView, s: Seq<u8>)
    requires
        r.method == wire::method_get(),
        r.path == wire::echo_prefix() + s,
        !wants_gzip_spec(r.headers),
    ensures
        dispatch_spec(r) == DispatchSpec::Respond(echo_plain_response_spec(s)),
        echo_plain_response_spec(s).status_code == 200,
        echo_plain_response_spec(s).body == s,
{
    lemma_echo_route(r, s);
    assert(echo_content_spec(r.path) =~= s);
}

/// The route of a GET whose path is `/echo/` plus a payload is the echo
/// route.
proof fn lemma_echo_route(r: RequestView, s: Seq<u8>)
    requires
        r.method == wire::method_get(),
        r.path == wire::echo_prefix() + s,
    ensures
        route_spec(r.method, r.path) == Route::Echo,
        echo_content_spec(r.path) == s,
{
    assert(r.path.len() == 6 + s.len());
    assert(r.path != wire::root_path());
    assert(r.path[1] == 101);
    assert(wire::user_agent_path()[1] == 117);
    assert(r.path != wire::user_agent_path());
    assert(r.path.subrange(0, 6) =~= wire::echo_prefix());
    assert(has_prefix_spec(r.path, wire::echo_prefix()));
    assert(echo_content_spec(r.path) =~= s);
}

/// Gzip echo law: a GET of `/echo/` plus a payload, with gzip accepted, is
/// answered 200, its body is the gzip encoding of the payload, and
/// `Content-Encoding: gzip` is set.
pub proof fn lemma_echo_gzip(r: RequestView, s: Seq<u8>)
    requires
        r.method == wire::method_get(),
        r.path == wire::echo_prefix() + s,
        wants_gzip_spec(r.headers),
    ensures
        dispatch_spec(r) == DispatchSpec::Respond(echo_gzip_response_spec(s)),
        echo_gzip_response_spec(s).status_code == 200,
        echo_gzip_response_spec(s).body == gzip_of(s),
        header_get(echo_gzip_response_spec(s).headers, wire::content_encoding_key()) == Some(
            wire::gzip_token(),
        ),
{
    lemma_echo_route(r, s);
    let hs = echo_gzip_response_spec(s).headers;
    crate::http::lemma_key_index(hs, wire::content_encoding_key());
    assert(wire::content_encoding_key()[8] != wire::content_type_key()[8]);
    assert(hs[1].0 == wire::content_encoding_key());
    match crate::http::key_index(hs, wire::content_encoding_key()) {
        Some(i) => {
            assert(hs[i].0 == wire::content_encoding_key());
            assert(i != 0);
            assert(i == 1);
        },
        None => {
            assert(false);
        },
    }
}

/// User-agent law: a GET of `/user-agent` is answered 200 with exactly the
/// request's `user-agent` header value as its body.
pub proof fn lemma_user_agent(r: RequestView, ua: Seq<u8>)
    requires
        r.method == wire::method_get(),
        r.path == wire::user_agent_path(),
        header_get(r.headers, wire::user_agent_key_lc()) == Some(ua),
    ensures
        dispatch_spec(r) == DispatchSpec::Respond(user_agent_response_spec(r.headers)),
        user_agent_response_spec(r.headers).status_code == 200,
        user_agent_response_spec(r.headers).body == ua,
{
    assert(wire::user_agent_path().len() == 11);
    assert(wire::root_path().len() == 1);
    assert(r.path != wire::root_path());
}

/// Files round-trip law: a POST of `/files/` plus a name asks for exactly
/// the request body to be written under that name; a GET of the same path
/// asks for that name to be read; and a read that yields those bytes is
/// answered 200 with exactly them.
pub proof fn lemma_files_round_trip(post: RequestView, get: RequestView, name: Seq<u8>)
    requires
        post.method == wire::method_post(),
        post.path == wire::files_prefix() + name,
        get.method == wire::method_get(),
        get.path == wire::files_prefix() + name,
    ensures
        dispatch_spec(post) == DispatchSpec::WriteFile(name, post.body),
        dispatch_spec(get) == DispatchSpec::ReadFile(name),
        file_get_response_spec(Some(post.body)).status_code == 200,
        file_get_response_spec(Some(post.body)).body == post.body,
{
    assert(wire::method_post()[0] == 80);
    assert(wire::method_get()[0] == 71);
    assert(post.method != wire::method_get());
    assert(post.path.subrange(0, 7) =~= wire::files_prefix());
    assert(has_prefix_spec(post.path, wire::files_prefix()));
    assert(file_name_spec(post.path) =~= name);
    assert(get.path.len() == 7 + name.len());
    assert(get.path != wire::root_path());
    assert(get.path[1] == 102);
    assert(wire::user_agent_path()[1] == 117);
    assert(get.path != wire::user_agent_path());
    assert(wire::echo_prefix()[1] == 101);
    if has_prefix_spec(get.path, wire::echo_prefix()) {
        assert(get.path.subrange(0, 6)[1] == get.path[1]);
        assert(false);
    }
    assert(get.path.subrange(0, 7) =~= wire::files_prefix());
    assert(has_prefix_spec(get.path, wire::files_prefix()));
    assert(file_name_spec(get.path) =~= name);
}

} // verus!
