//! Responses: what a handler builds, and the bytes that go on the wire for
//! it.

use crate::headers::{upsert, Field, Headers};
use crate::http::{lemma_status_text, HttpCode};
use crate::text::push_bytes;
use crate::wire::{crlf, crlf_free, lemma_crlf_free_concat, terminated, COLON, CR, LF, SP};
use vstd::prelude::*;
use vstd::std_specs::convert::FromSpecImpl;
use vstd::string::StringExecFns;
use vstd::utf8::{encode_utf8, is_ascii_chars_encode_utf8};

verus! {

/// A response as the contracts see it. The header fields stand in the order
/// in which they go on the wire.
pub struct ResponseView {
    pub code: HttpCode,
    pub headers: Seq<Field>,
    pub body: Seq<u8>,
}

/// The status line without its terminator: the protocol version, one space,
/// the status code's wire form.
pub open spec fn status_line(code: HttpCode) -> Seq<u8> {
    encode_utf8("HTTP/1.1 "@) + encode_utf8(code.text())
}

/// A header line without its terminator: the name, a colon, one space, the
/// value.
pub open spec fn field_line(field: Field) -> Seq<u8> {
    encode_utf8(field.0) + seq![COLON, SP] + encode_utf8(field.1)
}

/// The header lines of `fields` in order, without their terminators.
pub open spec fn field_lines(fields: Seq<Field>) -> Seq<Seq<u8>> {
    fields.map_values(|field: Field| field_line(field))
}

/// The bytes that go on the wire for a response: the status line, the header
/// lines, an empty line and the body as it stands.
pub open spec fn encode(r: ResponseView) -> Seq<u8> {
    status_line(r.code) + crlf() + terminated(field_lines(r.headers)) + crlf() + r.body
}

/// A header line holds no CRLF pair where its name and its value hold none.
pub proof fn lemma_field_line(field: Field)
    requires
        crlf_free(encode_utf8(field.0)),
        crlf_free(encode_utf8(field.1)),
    ensures
        field_line(field).len() > 0,
        crlf_free(field_line(field)),
{
    let sep = seq![COLON, SP];
    lemma_crlf_free_concat(encode_utf8(field.0), sep);
    lemma_crlf_free_concat(encode_utf8(field.0) + sep, encode_utf8(field.1));
}

/// The status line holds no carriage return.
pub proof fn lemma_status_line(code: HttpCode)
    ensures
        status_line(code).len() > 0,
        crlf_free(status_line(code)),
{
    reveal_strlit("HTTP/1.1 ");
    lemma_status_text(code);
    is_ascii_chars_encode_utf8("HTTP/1.1 "@);
    is_ascii_chars_encode_utf8(code.text());
}

/// A response under construction.
pub struct Response {
    code: HttpCode,
    content: Vec<u8>,
    headers: Headers,
}

impl View for Response {
    type V = ResponseView;

    closed spec fn view(&self) -> ResponseView {
        ResponseView { code: self.code, headers: self.headers.fields(), body: self.content@ }
    }
}

impl Clone for Response {
    fn clone(&self) -> (r: Response)
        ensures
            r@ == self@,
    {
        Response {
            code: self.code,
            content: vstd::slice::slice_to_vec(self.content.as_slice()),
            headers: self.headers.clone(),
        }
    }
}

/// `from` states its own result: a response owns a vector, and no
/// expression of a contract builds one.
impl FromSpecImpl<HttpCode> for Response {
    open spec fn obeys_from_spec() -> bool {
        false
    }

    open spec fn from_spec(code: HttpCode) -> Response {
        arbitrary()
    }
}

impl From<HttpCode> for Response {
    /// A response with `code`, no header fields and an empty body.
    fn from(code: HttpCode) -> (r: Response)
        ensures
            r@ == (ResponseView { code, headers: Seq::empty(), body: Seq::empty() }),
    {
        Response { code, content: Vec::new(), headers: Headers::new() }
    }
}

/// As for `HttpCode`: `from` states its own result.
impl FromSpecImpl<Vec<u8>> for Response {
    open spec fn obeys_from_spec() -> bool {
        false
    }

    open spec fn from_spec(content: Vec<u8>) -> Response {
        arbitrary()
    }
}

impl From<Vec<u8>> for Response {
    /// A successful response with `content` as its body and no header
    /// fields.
    fn from(content: Vec<u8>) -> (r: Response)
        ensures
            r@ == (ResponseView { code: HttpCode::Success, headers: Seq::empty(), body: content@ }),
    {
        Response { code: HttpCode::Success, content, headers: Headers::new() }
    }
}

impl Response {
    /// The status code.
    pub fn code(&self) -> (c: HttpCode)
        ensures
            c == self@.code,
    {
        self.code
    }

    /// The body.
    pub fn content(&self) -> (b: &[u8])
        ensures
            b@ == self@.body,
    {
        self.content.as_slice()
    }

    /// The header fields.
    pub fn headers(&self) -> (h: &Headers)
        ensures
            h.fields() == self@.headers,
    {
        &self.headers
    }

    /// The body, for the caller to change.
    pub fn content_mut(&mut self) -> (content: &mut Vec<u8>)
        ensures
            content@ == old(self)@.body,
            final(self)@ == (ResponseView { body: final(content)@, ..old(self)@ }),
    {
        &mut self.content
    }

    /// Sets the header field `key` to `value`. Nothing is added on the
    /// caller's behalf: a response carries the fields it was given.
    pub fn header(&mut self, key: &str, value: &str)
        ensures
            final(self)@ == (ResponseView {
                headers: upsert(old(self)@.headers, key@, value@),
                ..old(self)@
            }),
    {
        self.headers.insert(String::from_str(key), String::from_str(value));
    }

    /// The bytes that go on the wire for this response.
    pub fn into_bytes(self) -> (bytes: Vec<u8>)
        ensures
            bytes@ == encode(self@),
    {
        let mut buf: Vec<u8> = Vec::new();
        push_bytes(&mut buf, "HTTP/1.1 ".as_bytes());
        push_bytes(&mut buf, self.code.as_str().as_bytes());
        buf.push(CR);
        buf.push(LF);
        let ghost head = buf@;
        let n = self.headers.len();
        let mut i: usize = 0;
        while i < n
            invariant
                i <= n,
                n == self.headers.fields().len(),
                buf@ == head + terminated(field_lines(self.headers.fields().take(i as int))),
            decreases n - i,
        {
            let ghost before = self.headers.fields().take(i as int);
            let ghost after = self.headers.fields().take(i + 1);
            push_bytes(&mut buf, self.headers.name_at(i).as_bytes());
            buf.push(COLON);
            buf.push(SP);
            push_bytes(&mut buf, self.headers.value_at(i).as_bytes());
            buf.push(CR);
            buf.push(LF);
            proof {
                assert(field_lines(after).drop_last() =~= field_lines(before));
            }
            i += 1;
        }
        assert(self.headers.fields().take(n as int) =~= self.headers.fields());
        buf.push(CR);
        buf.push(LF);
        push_bytes(&mut buf, self.content.as_slice());
        buf
    }
}

} // verus!
