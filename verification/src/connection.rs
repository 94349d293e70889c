//! The per-connection cycle: after a handler builds a response, decide
//! whether the connection closes, add `Connection: close` to the response
//! when the request asked for it, and serialize. The surrounding program
//! owns the socket: it feeds received bytes to the parser, writes the bytes
//! returned here, and tears the connection down when told to.

use vstd::prelude::*;

use crate::http::{
    connection_close_spec, has_key, header_get, header_put, serialize_spec,
    with_auto_content_length, Request, Response, ResponseView,
};
use crate::wire;

verus! {

/// The states of one connection: processing requests, or torn down.
#[derive(Debug, Clone, Copy, PartialEq, Eq, Structural)]
pub enum ConnState {
    Active,
    Closing,
}

/// The response as it goes onto the wire: `Connection: close` is added when
/// the request asked to close, unless the handler set a `Connection` header
/// itself.
pub open spec fn finalize_spec(r: ResponseView, close_requested: bool) -> ResponseView {
    if close_requested && !has_key(r.headers, wire::connection_key()) {
        ResponseView {
            headers: header_put(r.headers, wire::connection_key(), wire::close_value()),
            ..r
        }
    } else {
        r
    }
}

/// Add `Connection: close` when the request asked to close and the handler
/// set no `Connection` header itself.
pub fn finalize_response(resp: Response, close_requested: bool) -> (r: Response)
    ensures
        r@ == finalize_spec(resp@, close_requested),
{
    let key = wire::connection_key_vec();
    if close_requested && !resp.has_header(&key) {
        let mut resp = resp;
        resp.add_connection_close_header();
        resp
    } else {
        resp
    }
}

/// Serialize the response for this request's cycle: the returned state says
/// whether the connection stays `Active` for the next request or goes to
/// `Closing` after the bytes are written, exactly when the request carried
/// `Connection: close`.
pub fn respond(req: &Request, resp: Response) -> (r: (Vec<u8>, ConnState))
    ensures
        r.1 == (if connection_close_spec(req@) {
            ConnState::Closing
        } else {
            ConnState::Active
        }),
        r.0@ == serialize_spec(
            with_auto_content_length(finalize_spec(resp@, connection_close_spec(req@))),
        ),
{
    let close_requested = req.connection_close_exist();
    let finalized = finalize_response(resp, close_requested);
    let out = finalized.into_bytes();
    (out, if close_requested {
        ConnState::Closing
    } else {
        ConnState::Active
    })
}

/// Close law: when the request asked to close and the handler set no
/// `Connection` header, the wire response carries `Connection: close`; when
/// the request did not ask, the response is untouched.
pub proof fn lemma_close_header(r: ResponseView)
    requires
        !has_key(r.headers, wire::connection_key()),
    ensures
        header_get(finalize_spec(r, true).headers, wire::connection_key()) == Some(
            wire::close_value(),
        ),
        finalize_spec(r, false) == r,
{
    crate::http::lemma_header_put_get(
        r.headers,
        wire::connection_key(),
        wire::close_value(),
        wire::connection_key(),
    );
}

} // verus!
