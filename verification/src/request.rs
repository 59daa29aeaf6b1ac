//! Requests: what a byte stream means as a request, and the parser that
//! reads one from a buffer.

use crate::headers::{as_map, upsert, Field, Headers};
use crate::http::{HttpVersion, Method};
use crate::text::{decode, find_byte, first_index, lemma_first_index_is, str_trim, trim};
use crate::wire::{
    after_line, crlf_at, first_line, lemma_line_len_is, line_len, split, split_bytes, COLON, CR,
    LF, NUL, SP,
};
use vstd::prelude::*;
use vstd::std_specs::convert::FromSpecImpl;
use vstd::std_specs::iter::IteratorSpec;
use vstd::string::StringExecFns;
use vstd::utf8::{decode_utf8, valid_utf8};

verus! {

/// Why a byte stream is not a request.
#[derive(Clone, Copy, Debug, PartialEq, Eq, Structural)]
pub enum ParseError {
    /// The request line does not hold exactly three tokens.
    BadStartLine,
    /// The first token names no recognized method.
    UnknownMethod,
    /// The third token names no recognized protocol version.
    UnknownVersion,
    /// A header line holds no colon.
    MissingColon,
    /// The path, a header name or a header value is not UTF-8 text.
    InvalidUtf8,
}

/// A request as the contracts see it.
pub struct RequestView {
    pub method: Method,
    pub path: Seq<char>,
    pub version: HttpVersion,
    pub headers: Map<Seq<char>, Seq<char>>,
    pub body: Seq<u8>,
}

/// The meaning of a request line: three tokens separated by single spaces,
/// a method, a path taken as it stands and a protocol version.
pub open spec fn start_line(line: Seq<u8>) -> Result<(Method, Seq<char>, HttpVersion), ParseError> {
    let tokens = split(line, SP);
    if tokens.len() != 3 {
        Err(ParseError::BadStartLine)
    } else if Method::of_token(tokens[0]) is None {
        Err(ParseError::UnknownMethod)
    } else if !valid_utf8(tokens[1]) {
        Err(ParseError::InvalidUtf8)
    } else if HttpVersion::of_token(tokens[2]) is None {
        Err(ParseError::UnknownVersion)
    } else {
        Ok((Method::of_token(tokens[0])->0, decode_utf8(tokens[1]), HttpVersion::of_token(tokens[2])->0))
    }
}

/// The meaning of a header line: the name is what precedes the first colon,
/// the value all that follows it, both trimmed.
pub open spec fn header_line(line: Seq<u8>) -> Result<Field, ParseError> {
    let colon = first_index(line, COLON) as int;
    if colon >= line.len() {
        Err(ParseError::MissingColon)
    } else if !valid_utf8(line.take(colon)) || !valid_utf8(line.skip(colon + 1)) {
        Err(ParseError::InvalidUtf8)
    } else {
        Ok((trim(decode_utf8(line.take(colon))), trim(decode_utf8(line.skip(colon + 1)))))
    }
}

/// The meaning of a header block read after `seen`: lines are taken until
/// one is empty or fails, and a name set twice keeps the later value.
pub open spec fn header_fields(s: Seq<u8>, seen: Seq<Field>) -> Result<Seq<Field>, ParseError>
    decreases s.len(),
{
    let line = first_line(s);
    if line.len() == 0 {
        Ok(seen)
    } else {
        match header_line(line) {
            Err(e) => Err(e),
            Ok(field) => {
                header_fields(after_line(s), upsert(seen, field.0, field.1))
            },
        }
    }
}

/// What follows a header block: the bytes after its empty line, or after
/// the line that failed.
pub open spec fn after_headers(s: Seq<u8>) -> Seq<u8>
    decreases s.len(),
{
    let line = first_line(s);
    if line.len() == 0 || header_line(line) is Err {
        after_line(s)
    } else {
        after_headers(after_line(s))
    }
}

/// The body: all bytes up to the first zero byte, or all of them.
pub open spec fn body(s: Seq<u8>) -> Seq<u8> {
    s.take(first_index(s, NUL) as int)
}

/// What follows a body: the bytes after the zero byte that ended it.
pub open spec fn after_body(s: Seq<u8>) -> Seq<u8> {
    if first_index(s, NUL) < s.len() {
        s.skip(first_index(s, NUL) as int + 1)
    } else {
        Seq::empty()
    }
}

/// The meaning of a byte stream as a request: a request line, a header
/// block and a body.
pub open spec fn request(s: Seq<u8>) -> Result<RequestView, ParseError> {
    match start_line(first_line(s)) {
        Err(e) => Err(e),
        Ok(start) => match header_fields(after_line(s), Seq::empty()) {
            Err(e) => Err(e),
            Ok(fields) => Ok(
                RequestView {
                    method: start.0,
                    path: start.1,
                    version: start.2,
                    headers: as_map(fields),
                    body: body(after_headers(after_line(s))),
                },
            ),
        },
    }
}

/// What is left of a byte stream once a request was read from it, or once
/// reading failed.
pub open spec fn after_request(s: Seq<u8>) -> Seq<u8> {
    if start_line(first_line(s)) is Err {
        after_line(s)
    } else if header_fields(after_line(s), Seq::empty()) is Err {
        after_headers(after_line(s))
    } else {
        after_body(after_headers(after_line(s)))
    }
}

/// The bytes of a request, consumed from the front.
pub struct RequestBuffer {
    bytes: Vec<u8>,
    pos: usize,
}

impl View for RequestBuffer {
    type V = Seq<u8>;

    /// The bytes not yet consumed.
    closed spec fn view(&self) -> Seq<u8> {
        self.bytes@.skip(self.pos as int)
    }
}

impl RequestBuffer {
    #[verifier::type_invariant]
    spec fn cursor_in_bounds(&self) -> bool {
        self.pos <= self.bytes@.len()
    }

    /// A buffer over `bytes`.
    pub fn new(bytes: Vec<u8>) -> (r: RequestBuffer)
        ensures
            r@ == bytes@,
    {
        let r = RequestBuffer { bytes, pos: 0 };
        r
    }

    /// The number of bytes not yet consumed.
    pub fn remaining(&self) -> (n: usize)
        ensures
            n == self@.len(),
    {
        proof {
            use_type_invariant(self);
        }
        self.bytes.len() - self.pos
    }

    fn peek(&self) -> (r: Option<u8>)
        ensures
            r == if self@.len() > 0 {
                Some(self@[0])
            } else {
                None
            },
    {
        proof {
            use_type_invariant(self);
        }
        if self.pos < self.bytes.len() {
            Some(self.bytes[self.pos])
        } else {
            None
        }
    }

    fn next(&mut self) -> (r: Option<u8>)
        ensures
            r == if old(self)@.len() > 0 {
                Some(old(self)@[0])
            } else {
                None
            },
            final(self)@ == if old(self)@.len() > 0 {
                old(self)@.drop_first()
            } else {
                old(self)@
            },
    {
        proof {
            use_type_invariant(&*self);
        }
        if self.pos < self.bytes.len() {
            let b = self.bytes[self.pos];
            self.pos = self.pos + 1;
            Some(b)
        } else {
            None
        }
    }

    /// Moves the bytes before the first `stop` to the end of `buf` and
    /// returns how many they were. The `stop` byte itself stays in the
    /// buffer.
    pub fn read_until(&mut self, stop: u8, buf: &mut Vec<u8>) -> (n: usize)
        ensures
            n == first_index(old(self)@, stop),
            final(buf)@ == old(buf)@ + old(self)@.take(n as int),
            final(self)@ == old(self)@.skip(n as int),
    {
        let ghost s = self@;
        let mut i: usize = 0;
        proof {
            use_type_invariant(&*self);
            assert(s.len() == self.bytes.len() - self.pos);
        }
        loop
            invariant_except_break
                s.len() <= usize::MAX,
                i <= s.len(),
                self@ == s.skip(i as int),
                buf@ == old(buf)@ + s.take(i as int),
                forall|j: int| 0 <= j < i ==> s[j] != stop,
            ensures
                i <= s.len(),
                self@ == s.skip(i as int),
                buf@ == old(buf)@ + s.take(i as int),
                i == first_index(s, stop),
            decreases s.len() - i,
        {
            let byte = match self.peek() {
                Some(byte) => byte,
                None => {
                    proof {
                        lemma_first_index_is(s, stop, i as int);
                    }
                    break ;
                },
            };
            if byte == stop {
                proof {
                    lemma_first_index_is(s, stop, i as int);
                }
                break ;
            }
            buf.push(byte);
            self.next();
            i += 1;
        }
        i
    }

    /// Moves the first line to the end of `buf`, without its CRLF, and
    /// consumes the line and its CRLF. Where no CRLF is left, the line is all
    /// that remains. Returns the number of bytes that went through `buf`:
    /// the line's length, and one more where a CRLF ended it.
    pub fn read_next_line(&mut self, buf: &mut Vec<u8>) -> (n: usize)
        ensures
            final(buf)@ == old(buf)@ + first_line(old(self)@),
            final(self)@ == after_line(old(self)@),
            n == if line_len(old(self)@) < old(self)@.len() {
                line_len(old(self)@) + 1
            } else {
                line_len(old(self)@)
            },
    {
        let ghost s = self@;
        let mut i: usize = 0;
        let mut last_byte: u8 = 0;
        proof {
            use_type_invariant(&*self);
            assert(s.len() == self.bytes.len() - self.pos);
        }
        loop
            invariant_except_break
                s.len() <= usize::MAX,
                i <= s.len(),
                self@ == s.skip(i as int),
                buf@ == old(buf)@ + s.take(i as int),
                i > 0 ==> last_byte == s[i - 1],
                i == 0 ==> last_byte == 0,
                forall|j: int| 0 <= j && j + 1 < i ==> !crlf_at(s, j),
            ensures
                buf@ == old(buf)@ + first_line(s),
                self@ == after_line(s),
                i == if line_len(s) < s.len() {
                    line_len(s) + 1
                } else {
                    line_len(s)
                },
            decreases s.len() - i,
        {
            let byte = match self.peek() {
                Some(byte) => byte,
                None => {
                    proof {
                        lemma_line_len_is(s, i as int);
                    }
                    break ;
                },
            };
            if byte == LF && last_byte == CR {
                buf.pop();
                // Consume the line feed.
                self.next();
                proof {
                    lemma_line_len_is(s, i - 1);
                }
                break ;
            }
            buf.push(byte);
            self.next();
            last_byte = byte;
            i += 1;
        }
        i
    }

    /// Moves the bytes before the first zero byte to the end of `buf` and
    /// consumes them and that zero byte. Where no zero byte is left, all
    /// that remains is moved.
    pub fn read_to_end(&mut self, buf: &mut Vec<u8>)
        ensures
            final(buf)@ == old(buf)@ + body(old(self)@),
            final(self)@ == after_body(old(self)@),
    {
        let ghost s = self@;
        let ghost mut i: int = 0;
        loop
            invariant_except_break
                0 <= i <= s.len(),
                self@ == s.skip(i),
                buf@ == old(buf)@ + s.take(i),
                forall|j: int| 0 <= j < i ==> s[j] != NUL,
            ensures
                buf@ == old(buf)@ + body(s),
                self@ == after_body(s),
            decreases s.len() - i,
        {
            let byte = match self.next() {
                Some(byte) => byte,
                None => {
                    proof {
                        lemma_first_index_is(s, NUL, i);
                    }
                    break ;
                },
            };
            if byte == NUL {
                proof {
                    lemma_first_index_is(s, NUL, i);
                }
                break ;
            }
            buf.push(byte);
            proof {
                i = i + 1;
            }
        }
    }
}

/// Trusted: `Iterator::collect` of the standard library, into a `Vec`. It
/// calls `next` until that returns `None` and keeps the items in the order
/// in which they came; of an iterator that keeps vstd's iterator laws these
/// are the items it has left.
#[verifier::external_body]
fn collect_bytes<I: Iterator<Item = u8>>(iter: I) -> (bytes: Vec<u8>)
    ensures
        iter.obeys_prophetic_iter_laws() ==> bytes@ == iter.remaining(),
{
    iter.collect()
}

/// `from` states its own result: a buffer owns a vector, and no expression
/// of a contract builds one.
impl<I: Iterator<Item = u8>> FromSpecImpl<I> for RequestBuffer {
    open spec fn obeys_from_spec() -> bool {
        false
    }

    open spec fn from_spec(iter: I) -> RequestBuffer {
        arbitrary()
    }
}

impl<I: Iterator<Item = u8>> From<I> for RequestBuffer {
    /// A buffer over the bytes that `iter` yields.
    fn from(iter: I) -> (r: RequestBuffer)
        ensures
            iter.obeys_prophetic_iter_laws() ==> r@ == iter.remaining(),
    {
        RequestBuffer::new(collect_bytes(iter))
    }
}

/// A parsed request.
#[derive(Debug)]
pub struct Request {
    method: Method,
    path: String,
    version: HttpVersion,
    headers: Headers,
    body: Vec<u8>,
}

impl View for Request {
    type V = RequestView;

    closed spec fn view(&self) -> RequestView {
        RequestView {
            method: self.method,
            path: self.path@,
            version: self.version,
            headers: self.headers@,
            body: self.body@,
        }
    }
}

impl Clone for Request {
    fn clone(&self) -> (r: Request)
        ensures
            r@ == self@,
    {
        Request {
            method: self.method,
            path: self.path.clone(),
            version: self.version,
            headers: self.headers.clone(),
            body: vstd::slice::slice_to_vec(self.body.as_slice()),
        }
    }
}

/// The outcome of reading a request line, as the contracts see it.
pub open spec fn start_view(r: Result<(Method, String, HttpVersion), ParseError>) -> Result<
    (Method, Seq<char>, HttpVersion),
    ParseError,
> {
    match r {
        Ok(start) => Ok((start.0, start.1@, start.2)),
        Err(e) => Err(e),
    }
}

/// The outcome of reading a header line, as the contracts see it.
pub open spec fn field_view(r: Result<(String, String), ParseError>) -> Result<Field, ParseError> {
    match r {
        Ok(field) => Ok((field.0@, field.1@)),
        Err(e) => Err(e),
    }
}

/// The outcome of reading a header block, as the contracts see it.
pub open spec fn fields_view(r: Result<Headers, ParseError>) -> Result<Seq<Field>, ParseError> {
    match r {
        Ok(headers) => Ok(headers.fields()),
        Err(e) => Err(e),
    }
}

/// The outcome of reading a request, as the contracts see it.
pub open spec fn request_view(r: Result<Request, ParseError>) -> Result<RequestView, ParseError> {
    match r {
        Ok(req) => Ok(req@),
        Err(e) => Err(e),
    }
}

/// Reads a request line that was already cut from the stream.
pub fn read_start_line(line: &[u8]) -> (r: Result<(Method, String, HttpVersion), ParseError>)
    ensures
        start_view(r) == start_line(line@),
{
    let parts = split_bytes(line, SP);
    if parts.len() != 3 {
        return Err(ParseError::BadStartLine);
    }
    let method = match Method::from_token(parts[0]) {
        Some(method) => method,
        None => {
            return Err(ParseError::UnknownMethod);
        },
    };
    let path = match decode(parts[1]) {
        Some(path) => path,
        None => {
            return Err(ParseError::InvalidUtf8);
        },
    };
    let version = match HttpVersion::from_token(parts[2]) {
        Some(version) => version,
        None => {
            return Err(ParseError::UnknownVersion);
        },
    };
    Ok((method, path, version))
}

/// Reads a header line that was already cut from the stream.
pub fn read_header_line(line: &[u8]) -> (r: Result<(String, String), ParseError>)
    ensures
        field_view(r) == header_line(line@),
{
    let colon = find_byte(line, COLON);
    if colon >= line.len() {
        return Err(ParseError::MissingColon);
    }
    let name_bytes = &line[0..colon];
    let value_bytes = &line[colon + 1..line.len()];
    let name = match decode(name_bytes) {
        Some(name) => name,
        None => {
            return Err(ParseError::InvalidUtf8);
        },
    };
    let value = match decode(value_bytes) {
        Some(value) => value,
        None => {
            return Err(ParseError::InvalidUtf8);
        },
    };
    let name = String::from_str(str_trim(name.as_str()));
    let value = String::from_str(str_trim(value.as_str()));
    Ok((name, value))
}

impl Request {
    /// The request's method.
    pub fn method(&self) -> (m: Method)
        ensures
            m == self@.method,
    {
        self.method
    }

    /// The path as it stood on the request line.
    pub fn path(&self) -> (p: &str)
        ensures
            p@ == self@.path,
    {
        self.path.as_str()
    }

    /// The protocol version.
    pub fn version(&self) -> (v: HttpVersion)
        ensures
            v == self@.version,
    {
        self.version
    }

    /// The header fields.
    pub fn headers(&self) -> (h: &Headers)
        ensures
            h@ == self@.headers,
    {
        &self.headers
    }

    /// The body.
    pub fn body(&self) -> (b: &[u8])
        ensures
            b@ == self@.body,
    {
        self.body.as_slice()
    }

    /// Reads the request line from `req_buf`, or says why it is not one.
    pub fn try_parse_start_line(req_buf: &mut RequestBuffer) -> (r: Result<
        (Method, String, HttpVersion),
        ParseError,
    >)
        ensures
            start_view(r) == start_line(first_line(old(req_buf)@)),
            final(req_buf)@ == after_line(old(req_buf)@),
    {
        let mut buf: Vec<u8> = Vec::new();
        req_buf.read_next_line(&mut buf);
        read_start_line(buf.as_slice())
    }

    /// Reads a header block from `req_buf`, or says why it is not one.
    pub fn try_parse_headers(req_buf: &mut RequestBuffer) -> (r: Result<Headers, ParseError>)
        ensures
            fields_view(r) == header_fields(old(req_buf)@, Seq::empty()),
            final(req_buf)@ == after_headers(old(req_buf)@),
    {
        let ghost s0 = req_buf@;
        let mut headers = Headers::new();
        let mut buf: Vec<u8> = Vec::new();
        loop
            invariant
                s0 == old(req_buf)@,
                buf@.len() == 0,
                header_fields(s0, Seq::empty()) == header_fields(req_buf@, headers.fields()),
                after_headers(s0) == after_headers(req_buf@),
            decreases req_buf@.len(),
        {
            req_buf.read_next_line(&mut buf);
            if buf.len() == 0 {
                return Ok(headers);
            }
            match read_header_line(buf.as_slice()) {
                Err(e) => {
                    return Err(e);
                },
                Ok((name, value)) => {
                    headers.insert(name, value);
                },
            }
            buf.clear();
        }
    }

    /// Reads the body from `req_buf`.
    pub fn parse_body(req_buf: &mut RequestBuffer) -> (b: Vec<u8>)
        ensures
            b@ == body(old(req_buf)@),
            final(req_buf)@ == after_body(old(req_buf)@),
    {
        let mut b: Vec<u8> = Vec::new();
        req_buf.read_to_end(&mut b);
        b
    }

    /// Reads a request from `req_buf`, or says why the bytes are not one.
    pub fn try_parse(req_buf: &mut RequestBuffer) -> (r: Result<Request, ParseError>)
        ensures
            request_view(r) == request(old(req_buf)@),
            final(req_buf)@ == after_request(old(req_buf)@),
    {
        let (method, path, version) = match Self::try_parse_start_line(req_buf) {
            Ok(start) => start,
            Err(e) => {
                return Err(e);
            },
        };
        let headers = match Self::try_parse_headers(req_buf) {
            Ok(headers) => headers,
            Err(e) => {
                return Err(e);
            },
        };
        let body = Self::parse_body(req_buf);
        Ok(Request { method, path, version, headers, body })
    }

    /// Reads the request line from `req_buf`. Streams whose first line is no
    /// request line are outside this function's domain;
    /// `try_parse_start_line` reports them.
    pub fn parse_start_line(req_buf: &mut RequestBuffer) -> (start: (Method, String, HttpVersion))
        requires
            start_line(first_line(old(req_buf)@)) is Ok,
        ensures
            start_line(first_line(old(req_buf)@)) == Ok::<_, ParseError>(
                (start.0, start.1@, start.2),
            ),
            final(req_buf)@ == after_line(old(req_buf)@),
    {
        Self::try_parse_start_line(req_buf).unwrap()
    }

    /// Reads a header block from `req_buf`. Streams with a malformed header
    /// line are outside this function's domain; `try_parse_headers` reports
    /// them.
    pub fn parse_headers(req_buf: &mut RequestBuffer) -> (headers: Headers)
        requires
            header_fields(old(req_buf)@, Seq::empty()) is Ok,
        ensures
            header_fields(old(req_buf)@, Seq::empty()) == Ok::<_, ParseError>(headers.fields()),
            final(req_buf)@ == after_headers(old(req_buf)@),
    {
        Self::try_parse_headers(req_buf).unwrap()
    }

    /// Reads a request from `req_buf`. Streams that are no request are
    /// outside this function's domain; `try_parse` reports them.
    pub fn parse(req_buf: &mut RequestBuffer) -> (req: Request)
        requires
            request(old(req_buf)@) is Ok,
        ensures
            request(old(req_buf)@) == Ok::<_, ParseError>(req@),
            final(req_buf)@ == after_request(old(req_buf)@),
    {
        Self::try_parse(req_buf).unwrap()
    }
}

} // verus!
