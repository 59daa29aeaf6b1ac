//! The handlers of the default routes, and the parts of the file handlers
//! that decide without touching a file.

use crate::http::HttpCode;
use crate::request::{Request, RequestView};
use crate::response::{Response, ResponseView};
use crate::text::{after_prefix, decimal, decimal_string, strip_prefix_or_empty};
use vstd::prelude::*;
use vstd::utf8::encode_utf8;

verus! {

/// A successful response that declares its body's type and length.
pub open spec fn described(content_type: Seq<char>, length: nat, body: Seq<u8>) -> ResponseView {
    ResponseView {
        code: HttpCode::Success,
        headers: seq![("Content-Type"@, content_type), ("Content-Length"@, decimal(length))],
        body,
    }
}

/// What the echo route answers: the bytes of the path that follow `/echo/`,
/// as plain text.
pub open spec fn echo(req: RequestView) -> ResponseView {
    let body = after_prefix(encode_utf8(req.path), encode_utf8("/echo/"@));
    described("text/plain"@, body.len(), body)
}

/// The agent a request declares, or a fixed text where it declares none.
pub open spec fn declared_agent(req: RequestView) -> Seq<char> {
    if req.headers.contains_key("User-Agent"@) {
        req.headers["User-Agent"@]
    } else {
        "No User-Agent"@
    }
}

/// What the user-agent route answers: the declared agent, as plain text.
pub open spec fn user_agent(req: RequestView) -> ResponseView {
    let body = encode_utf8(declared_agent(req));
    described("text/plain"@, body.len(), body)
}

/// The name of the file a request is about: the bytes of the path that
/// follow `/files/`.
pub open spec fn file_name_of(req: RequestView) -> Seq<u8> {
    after_prefix(encode_utf8(req.path), encode_utf8("/files/"@))
}

/// What the file route answers to GET, given what was found under the
/// name: the file's bytes with its size declared, or not found.
pub open spec fn file_response(file: Option<(Seq<u8>, nat)>) -> ResponseView {
    match file {
        Some(found) => described("application/octet-stream"@, found.1, found.0),
        None => ResponseView { code: HttpCode::NotFound, headers: Seq::empty(), body: Seq::empty() },
    }
}

/// What the file route answers to POST, given whether the body was
/// written.
pub open spec fn stored_response(written: bool) -> ResponseView {
    ResponseView {
        code: if written {
            HttpCode::Created
        } else {
            HttpCode::InternalServerError
        },
        headers: Seq::empty(),
        body: Seq::empty(),
    }
}

fn describe(content_type: &str, length: u64, body: Vec<u8>) -> (res: Response)
    ensures
        res@ == described(content_type@, length as nat, body@),
{
    let mut response = Response::from(body);
    response.header("Content-Type", content_type);
    response.header("Content-Length", decimal_string(length).as_str());
    proof {
        // The two names differ, so the second field goes behind the first.
        reveal_strlit("Content-Type");
        reveal_strlit("Content-Length");
        assert("Content-Type"@.len() != "Content-Length"@.len());
        assert(response@.headers =~= described(content_type@, length as nat, body@).headers);
    }
    response
}

/// Answers every request with an empty success.
pub fn ok_handler(_req: Request) -> (res: Response)
    ensures
        res@ == (ResponseView { code: HttpCode::Success, headers: Seq::empty(), body: Seq::empty() }),
{
    Response::from(HttpCode::Success)
}

/// Answers with what follows `/echo/` in the request's path.
pub fn echo_handler(req: Request) -> (res: Response)
    ensures
        res@ == echo(req@),
{
    let response_content = strip_prefix_or_empty(req.path(), "/echo/");
    let body = vstd::slice::slice_to_vec(response_content.as_bytes());
    describe("text/plain", body.len() as u64, body)
}

/// Answers with the agent that the request declares.
pub fn user_agent_handler(req: Request) -> (res: Response)
    ensures
        res@ == user_agent(req@),
{
    let body = match req.headers().get("User-Agent") {
        Some(user_agent) => vstd::slice::slice_to_vec(user_agent.as_str().as_bytes()),
        None => vstd::slice::slice_to_vec("No User-Agent".as_bytes()),
    };
    describe("text/plain", body.len() as u64, body)
}

/// The name of the file that `req` is about.
pub fn file_name(req: &Request) -> (name: &str)
    ensures
        encode_utf8(name@) == file_name_of(req@),
{
    strip_prefix_or_empty(req.path(), "/files/")
}

/// Answers a GET for a file, given its bytes and its size where it was
/// found.
pub fn get_file_response(file: Option<(Vec<u8>, u64)>) -> (res: Response)
    ensures
        res@ == file_response(
            match file {
                Some(found) => Some((found.0@, found.1 as nat)),
                None => None,
            },
        ),
{
    match file {
        Some((content, size)) => describe("application/octet-stream", size, content),
        None => Response::from(HttpCode::NotFound),
    }
}

/// Answers a POST for a file, given whether the body was written.
pub fn post_file_response(written: bool) -> (res: Response)
    ensures
        res@ == stored_response(written),
{
    if written {
        Response::from(HttpCode::Created)
    } else {
        Response::from(HttpCode::InternalServerError)
    }
}

} // verus!
