//! The byte strings of the HTTP/1.1 wire format that this server reads and
//! writes: method tokens, route paths, header names and the fixed pieces of
//! a response. Each constant comes as a spec sequence and as an executable
//! builder proved to produce exactly those bytes.

use vstd::prelude::*;

verus! {

/// `"HTTP/1.1 "`: the fixed status-line prefix, version then one space.
pub open spec fn http_version_prefix() -> Seq<u8> {
    seq![72u8, 84u8, 84u8, 80u8, 47u8, 49u8, 46u8, 49u8, 32u8]
}

pub fn http_version_prefix_vec() -> (r: Vec<u8>)
    ensures
        r@ == http_version_prefix(),
{
    let mut v: Vec<u8> = Vec::new();
    v.push(72);
    v.push(84);
    v.push(84);
    v.push(80);
    v.push(47);
    v.push(49);
    v.push(46);
    v.push(49);
    v.push(32);
    proof {
        assert(v@ =~= http_version_prefix());
    }
    v
}

/// `": "`: the separator between a header name and its value on the wire.
pub open spec fn header_sep() -> Seq<u8> {
    seq![58u8, 32u8]
}

pub fn header_sep_vec() -> (r: Vec<u8>)
    ensures
        r@ == header_sep(),
{
    let mut v: Vec<u8> = Vec::new();
    v.push(58);
    v.push(32);
    proof {
        assert(v@ =~= header_sep());
    }
    v
}

/// `"\r\n"`: the line terminator.
pub open spec fn crlf() -> Seq<u8> {
    seq![13u8, 10u8]
}

pub fn crlf_vec() -> (r: Vec<u8>)
    ensures
        r@ == crlf(),
{
    let mut v: Vec<u8> = Vec::new();
    v.push(13);
    v.push(10);
    proof {
        assert(v@ =~= crlf());
    }
    v
}

/// `"content-length"`: the lowercased content-length header name.
pub open spec fn content_length_key_lc() -> Seq<u8> {
    seq![99u8, 111u8, 110u8, 116u8, 101u8, 110u8, 116u8, 45u8, 108u8, 101u8, 110u8, 103u8, 116u8, 104u8]
}

pub fn content_length_key_lc_vec() -> (r: Vec<u8>)
    ensures
        r@ == content_length_key_lc(),
{
    let mut v: Vec<u8> = Vec::new();
    v.push(99);
    v.push(111);
    v.push(110);
    v.push(116);
    v.push(101);
    v.push(110);
    v.push(116);
    v.push(45);
    v.push(108);
    v.push(101);
    v.push(110);
    v.push(103);
    v.push(116);
    v.push(104);
    proof {
        assert(v@ =~= content_length_key_lc());
    }
    v
}

/// `"connection"`: the lowercased connection header name.
pub open spec fn connection_key_lc() -> Seq<u8> {
    seq![99u8, 111u8, 110u8, 110u8, 101u8, 99u8, 116u8, 105u8, 111u8, 110u8]
}

pub fn connection_key_lc_vec() -> (r: Vec<u8>)
    ensures
        r@ == connection_key_lc(),
{
    let mut v: Vec<u8> = Vec::new();
    v.push(99);
    v.push(111);
    v.push(110);
    v.push(110);
    v.push(101);
    v.push(99);
    v.push(116);
    v.push(105);
    v.push(111);
    v.push(110);
    proof {
        assert(v@ =~= connection_key_lc());
    }
    v
}

/// `"user-agent"`: the lowercased user-agent header name.
pub open spec fn user_agent_key_lc() -> Seq<u8> {
    seq![117u8, 115u8, 101u8, 114u8, 45u8, 97u8, 103u8, 101u8, 110u8, 116u8]
}

pub fn user_agent_key_lc_vec() -> (r: Vec<u8>)
    ensures
        r@ == user_agent_key_lc(),
{
    let mut v: Vec<u8> = Vec::new();
    v.push(117);
    v.push(115);
    v.push(101);
    v.push(114);
    v.push(45);
    v.push(97);
    v.push(103);
    v.push(101);
    v.push(110);
    v.push(116);
    proof {
        assert(v@ =~= user_agent_key_lc());
    }
    v
}

/// `"accept-encoding"`: the lowercased accept-encoding header name.
pub open spec fn accept_encoding_key_lc() -> Seq<u8> {
    seq![97u8, 99u8, 99u8, 101u8, 112u8, 116u8, 45u8, 101u8, 110u8, 99u8, 111u8, 100u8, 105u8, 110u8, 103u8]
}

pub fn accept_encoding_key_lc_vec() -> (r: Vec<u8>)
    ensures
        r@ == accept_encoding_key_lc(),
{
    let mut v: Vec<u8> = Vec::new();
    v.push(97);
    v.push(99);
    v.push(99);
    v.push(101);
    v.push(112);
    v.push(116);
    v.push(45);
    v.push(101);
    v.push(110);
    v.push(99);
    v.push(111);
    v.push(100);
    v.push(105);
    v.push(110);
    v.push(103);
    proof {
        assert(v@ =~= accept_encoding_key_lc());
    }
    v
}

/// `"close"`: the connection header value that ends a connection.
pub open spec fn close_value() -> Seq<u8> {
    seq![99u8, 108u8, 111u8, 115u8, 101u8]
}

pub fn close_value_vec() -> (r: Vec<u8>)
    ensures
        r@ == close_value(),
{
    let mut v: Vec<u8> = Vec::new();
    v.push(99);
    v.push(108);
    v.push(111);
    v.push(115);
    v.push(101);
    proof {
        assert(v@ =~= close_value());
    }
    v
}

/// `"gzip"`: the accepted content coding.
pub open spec fn gzip_token() -> Seq<u8> {
    seq![103u8, 122u8, 105u8, 112u8]
}

pub fn gzip_token_vec() -> (r: Vec<u8>)
    ensures
        r@ == gzip_token(),
{
    let mut v: Vec<u8> = Vec::new();
    v.push(103);
    v.push(122);
    v.push(105);
    v.push(112);
    proof {
        assert(v@ =~= gzip_token());
    }
    v
}

/// `"Content-Length"`: the content-length header name as responses spell it.
pub open spec fn content_length_key() -> Seq<u8> {
    seq![67u8, 111u8, 110u8, 116u8, 101u8, 110u8, 116u8, 45u8, 76u8, 101u8, 110u8, 103u8, 116u8, 104u8]
}

pub fn content_length_key_vec() -> (r: Vec<u8>)
    ensures
        r@ == content_length_key(),
{
    let mut v: Vec<u8> = Vec::new();
    v.push(67);
    v.push(111);
    v.push(110);
    v.push(116);
    v.push(101);
    v.push(110);
    v.push(116);
    v.push(45);
    v.push(76);
    v.push(101);
    v.push(110);
    v.push(103);
    v.push(116);
    v.push(104);
    proof {
        assert(v@ =~= content_length_key());
    }
    v
}

/// `"Connection"`: the connection header name as responses spell it.
pub open spec fn connection_key() -> Seq<u8> {
    seq![67u8, 111u8, 110u8, 110u8, 101u8, 99u8, 116u8, 105u8, 111u8, 110u8]
}

pub fn connection_key_vec() -> (r: Vec<u8>)
    ensures
        r@ == connection_key(),
{
    let mut v: Vec<u8> = Vec::new();
    v.push(67);
    v.push(111);
    v.push(110);
    v.push(110);
    v.push(101);
    v.push(99);
    v.push(116);
    v.push(105);
    v.push(111);
    v.push(110);
    proof {
        assert(v@ =~= connection_key());
    }
    v
}

/// `"Content-Type"`: the content-type header name.
pub open spec fn content_type_key() -> Seq<u8> {
    seq![67u8, 111u8, 110u8, 116u8, 101u8, 110u8, 116u8, 45u8, 84u8, 121u8, 112u8, 101u8]
}

pub fn content_type_key_vec() -> (r: Vec<u8>)
    ensures
        r@ == content_type_key(),
{
    let mut v: Vec<u8> = Vec::new();
    v.push(67);
    v.push(111);
    v.push(110);
    v.push(116);
    v.push(101);
    v.push(110);
    v.push(116);
    v.push(45);
    v.push(84);
    v.push(121);
    v.push(112);
    v.push(101);
    proof {
        assert(v@ =~= content_type_key());
    }
    v
}

/// `"Content-Encoding"`: the content-encoding header name.
pub open spec fn content_encoding_key() -> Seq<u8> {
    seq![67u8, 111u8, 110u8, 116u8, 101u8, 110u8, 116u8, 45u8, 69u8, 110u8, 99u8, 111u8, 100u8, 105u8, 110u8, 103u8]
}

pub fn content_encoding_key_vec() -> (r: Vec<u8>)
    ensures
        r@ == content_encoding_key(),
{
    let mut v: Vec<u8> = Vec::new();
    v.push(67);
    v.push(111);
    v.push(110);
    v.push(116);
    v.push(101);
    v.push(110);
    v.push(116);
    v.push(45);
    v.push(69);
    v.push(110);
    v.push(99);
    v.push(111);
    v.push(100);
    v.push(105);
    v.push(110);
    v.push(103);
    proof {
        assert(v@ =~= content_encoding_key());
    }
    v
}

/// `"text/plain"`: the content type of echo and user-agent bodies.
pub open spec fn text_plain() -> Seq<u8> {
    seq![116u8, 101u8, 120u8, 116u8, 47u8, 112u8, 108u8, 97u8, 105u8, 110u8]
}

pub fn text_plain_vec() -> (r: Vec<u8>)
    ensures
        r@ == text_plain(),
{
    let mut v: Vec<u8> = Vec::new();
    v.push(116);
    v.push(101);
    v.push(120);
    v.push(116);
    v.push(47);
    v.push(112);
    v.push(108);
    v.push(97);
    v.push(105);
    v.push(110);
    proof {
        assert(v@ =~= text_plain());
    }
    v
}

/// `"application/octet-stream"`: the content type of file bodies.
pub open spec fn octet_stream() -> Seq<u8> {
    seq![97u8, 112u8, 112u8, 108u8, 105u8, 99u8, 97u8, 116u8, 105u8, 111u8, 110u8, 47u8, 111u8, 99u8, 116u8, 101u8, 116u8, 45u8, 115u8, 116u8, 114u8, 101u8, 97u8, 109u8]
}

pub fn octet_stream_vec() -> (r: Vec<u8>)
    ensures
        r@ == octet_stream(),
{
    let mut v: Vec<u8> = Vec::new();
    v.push(97);
    v.push(112);
    v.push(112);
    v.push(108);
    v.push(105);
    v.push(99);
    v.push(97);
    v.push(116);
    v.push(105);
    v.push(111);
    v.push(110);
    v.push(47);
    v.push(111);
    v.push(99);
    v.push(116);
    v.push(101);
    v.push(116);
    v.push(45);
    v.push(115);
    v.push(116);
    v.push(114);
    v.push(101);
    v.push(97);
    v.push(109);
    proof {
        assert(v@ =~= octet_stream());
    }
    v
}

/// `"OK"`: the 200 reason phrase.
pub open spec fn ok_text() -> Seq<u8> {
    seq![79u8, 75u8]
}

pub fn ok_text_vec() -> (r: Vec<u8>)
    ensures
        r@ == ok_text(),
{
    let mut v: Vec<u8> = Vec::new();
    v.push(79);
    v.push(75);
    proof {
        assert(v@ =~= ok_text());
    }
    v
}

/// `"Not Found"`: the 404 reason phrase.
pub open spec fn not_found_text() -> Seq<u8> {
    seq![78u8, 111u8, 116u8, 32u8, 70u8, 111u8, 117u8, 110u8, 100u8]
}

pub fn not_found_text_vec() -> (r: Vec<u8>)
    ensures
        r@ == not_found_text(),
{
    let mut v: Vec<u8> = Vec::new();
    v.push(78);
    v.push(111);
    v.push(116);
    v.push(32);
    v.push(70);
    v.push(111);
    v.push(117);
    v.push(110);
    v.push(100);
    proof {
        assert(v@ =~= not_found_text());
    }
    v
}

/// `"Created"`: the 201 reason phrase.
pub open spec fn created_text() -> Seq<u8> {
    seq![67u8, 114u8, 101u8, 97u8, 116u8, 101u8, 100u8]
}

pub fn created_text_vec() -> (r: Vec<u8>)
    ensures
        r@ == created_text(),
{
    let mut v: Vec<u8> = Vec::new();
    v.push(67);
    v.push(114);
    v.push(101);
    v.push(97);
    v.push(116);
    v.push(101);
    v.push(100);
    proof {
        assert(v@ =~= created_text());
    }
    v
}

/// `"GET"`: the GET method token.
pub open spec fn method_get() -> Seq<u8> {
    seq![71u8, 69u8, 84u8]
}

pub fn method_get_vec() -> (r: Vec<u8>)
    ensures
        r@ == method_get(),
{
    let mut v: Vec<u8> = Vec::new();
    v.push(71);
    v.push(69);
    v.push(84);
    proof {
        assert(v@ =~= method_get());
    }
    v
}

/// `"POST"`: the POST method token.
pub open spec fn method_post() -> Seq<u8> {
    seq![80u8, 79u8, 83u8, 84u8]
}

pub fn method_post_vec() -> (r: Vec<u8>)
    ensures
        r@ == method_post(),
{
    let mut v: Vec<u8> = Vec::new();
    v.push(80);
    v.push(79);
    v.push(83);
    v.push(84);
    proof {
        assert(v@ =~= method_post());
    }
    v
}

/// `"/"`: the root route.
pub open spec fn root_path() -> Seq<u8> {
    seq![47u8]
}

pub fn root_path_vec() -> (r: Vec<u8>)
    ensures
        r@ == root_path(),
{
    let mut v: Vec<u8> = Vec::new();
    v.push(47);
    proof {
        assert(v@ =~= root_path());
    }
    v
}

/// `"/user-agent"`: the user-agent route.
pub open spec fn user_agent_path() -> Seq<u8> {
    seq![47u8, 117u8, 115u8, 101u8, 114u8, 45u8, 97u8, 103u8, 101u8, 110u8, 116u8]
}

pub fn user_agent_path_vec() -> (r: Vec<u8>)
    ensures
        r@ == user_agent_path(),
{
    let mut v: Vec<u8> = Vec::new();
    v.push(47);
    v.push(117);
    v.push(115);
    v.push(101);
    v.push(114);
    v.push(45);
    v.push(97);
    v.push(103);
    v.push(101);
    v.push(110);
    v.push(116);
    proof {
        assert(v@ =~= user_agent_path());
    }
    v
}

/// `"/echo/"`: the prefix of echo routes.
pub open spec fn echo_prefix() -> Seq<u8> {
    seq![47u8, 101u8, 99u8, 104u8, 111u8, 47u8]
}

pub fn echo_prefix_vec() -> (r: Vec<u8>)
    ensures
        r@ == echo_prefix(),
{
    let mut v: Vec<u8> = Vec::new();
    v.push(47);
    v.push(101);
    v.push(99);
    v.push(104);
    v.push(111);
    v.push(47);
    proof {
        assert(v@ =~= echo_prefix());
    }
    v
}

/// `"/files/"`: the prefix of file routes.
pub open spec fn files_prefix() -> Seq<u8> {
    seq![47u8, 102u8, 105u8, 108u8, 101u8, 115u8, 47u8]
}

pub fn files_prefix_vec() -> (r: Vec<u8>)
    ensures
        r@ == files_prefix(),
{
    let mut v: Vec<u8> = Vec::new();
    v.push(47);
    v.push(102);
    v.push(105);
    v.push(108);
    v.push(101);
    v.push(115);
    v.push(47);
    proof {
        assert(v@ =~= files_prefix());
    }
    v
}

} // verus!
