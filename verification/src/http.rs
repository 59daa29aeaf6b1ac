//! The closed sets of status codes, methods and protocol versions, with
//! their exact wire text.

use crate::text::{bytes_eq, decimal, lemma_encode_utf8_injective};
use vstd::prelude::*;
use vstd::string::StringExecFns;
use vstd::utf8::{encode_utf8, is_ascii_chars, is_ascii_chars_encode_utf8};

verus! {

/// The status codes a response can carry.
#[derive(Clone, Copy, Debug, PartialEq, Eq, Structural)]
pub enum HttpCode {
    Success,
    NotFound,
    Created,
    InternalServerError,
}

/// The request methods the parser recognizes.
#[derive(Clone, Copy, Debug, PartialEq, Eq, Structural)]
pub enum Method {
    Get,
    Post,
    Put,
    Delete,
}

/// The protocol versions the parser recognizes.
#[derive(Clone, Copy, Debug, PartialEq, Eq, Structural)]
pub enum HttpVersion {
    V1_0,
    V1_1,
}

impl HttpCode {
    /// The three-digit status number.
    pub open spec fn number(self) -> nat {
        match self {
            HttpCode::Success => 200,
            HttpCode::NotFound => 404,
            HttpCode::Created => 201,
            HttpCode::InternalServerError => 500,
        }
    }

    /// The reason phrase that goes with the number.
    pub open spec fn reason(self) -> Seq<char> {
        match self {
            HttpCode::Success => "OK"@,
            HttpCode::NotFound => "Not Found"@,
            HttpCode::Created => "Created"@,
            HttpCode::InternalServerError => "Internal Server Error"@,
        }
    }

    /// The wire form: the number, one space, the reason phrase.
    pub open spec fn text(self) -> Seq<char> {
        decimal(self.number()) + seq![' '] + self.reason()
    }

    /// The status number.
    pub fn code(&self) -> (n: u16)
        ensures
            n == self.number(),
    {
        match self {
            HttpCode::Success => 200,
            HttpCode::NotFound => 404,
            HttpCode::Created => 201,
            HttpCode::InternalServerError => 500,
        }
    }

    /// The wire form as a borrowed literal.
    pub fn as_str(&self) -> (s: &'static str)
        ensures
            s@ == self.text(),
    {
        proof {
            reveal_with_fuel(decimal, 3);
        }
        match self {
            HttpCode::Success => {
                proof {
                    reveal_strlit("200 OK");
                    reveal_strlit("OK");
                }
                let s = "200 OK";
                s
            },
            HttpCode::NotFound => {
                proof {
                    reveal_strlit("404 Not Found");
                    reveal_strlit("Not Found");
                }
                let s = "404 Not Found";
                s
            },
            HttpCode::Created => {
                proof {
                    reveal_strlit("201 Created");
                    reveal_strlit("Created");
                }
                let s = "201 Created";
                s
            },
            HttpCode::InternalServerError => {
                proof {
                    reveal_strlit("500 Internal Server Error");
                    reveal_strlit("Internal Server Error");
                }
                let s = "500 Internal Server Error";
                s
            },
        }
    }

    /// The wire form as an owned string.
    pub fn to_string(&self) -> (s: String)
        ensures
            s@ == self.text(),
    {
        String::from_str(self.as_str())
    }
}

impl Method {
    /// The method's name as it is written on the request line.
    pub open spec fn name(self) -> Seq<char> {
        match self {
            Method::Get => "GET"@,
            Method::Post => "POST"@,
            Method::Put => "PUT"@,
            Method::Delete => "DELETE"@,
        }
    }

    /// The bytes of the name.
    pub open spec fn token(self) -> Seq<u8> {
        encode_utf8(self.name())
    }

    /// The method that `token` names, if any.
    pub open spec fn of_token(token: Seq<u8>) -> Option<Method> {
        if token == Method::Get.token() {
            Some(Method::Get)
        } else if token == Method::Post.token() {
            Some(Method::Post)
        } else if token == Method::Put.token() {
            Some(Method::Put)
        } else if token == Method::Delete.token() {
            Some(Method::Delete)
        } else {
            None
        }
    }

    /// Reads a method from the bytes of a request-line token.
    pub fn from_token(token: &[u8]) -> (r: Option<Method>)
        ensures
            r == Method::of_token(token@),
    {
        if bytes_eq(token, "GET".as_bytes()) {
            Some(Method::Get)
        } else if bytes_eq(token, "POST".as_bytes()) {
            Some(Method::Post)
        } else if bytes_eq(token, "PUT".as_bytes()) {
            Some(Method::Put)
        } else if bytes_eq(token, "DELETE".as_bytes()) {
            Some(Method::Delete)
        } else {
            None
        }
    }

    /// Reads a method from its name. Names other than the four recognized
    /// ones are outside this function's domain; `from_token` reports them.
    pub fn from(value: &str) -> (m: Method)
        requires
            Method::of_token(encode_utf8(value@)) is Some,
        ensures
            Some(m) == Method::of_token(encode_utf8(value@)),
            m.name() == value@,
    {
        let m = Method::from_token(value.as_bytes()).unwrap();
        proof {
            lemma_encode_utf8_injective(m.name(), value@);
        }
        m
    }
}

impl HttpVersion {
    /// The version's name as it is written on the request line.
    pub open spec fn name(self) -> Seq<char> {
        match self {
            HttpVersion::V1_0 => "HTTP/1.0"@,
            HttpVersion::V1_1 => "HTTP/1.1"@,
        }
    }

    /// The bytes of the name.
    pub open spec fn token(self) -> Seq<u8> {
        encode_utf8(self.name())
    }

    /// The version that `token` names, if any.
    pub open spec fn of_token(token: Seq<u8>) -> Option<HttpVersion> {
        if token == HttpVersion::V1_0.token() {
            Some(HttpVersion::V1_0)
        } else if token == HttpVersion::V1_1.token() {
            Some(HttpVersion::V1_1)
        } else {
            None
        }
    }

    /// Reads a version from the bytes of a request-line token.
    pub fn from_token(token: &[u8]) -> (r: Option<HttpVersion>)
        ensures
            r == HttpVersion::of_token(token@),
    {
        if bytes_eq(token, "HTTP/1.0".as_bytes()) {
            Some(HttpVersion::V1_0)
        } else if bytes_eq(token, "HTTP/1.1".as_bytes()) {
            Some(HttpVersion::V1_1)
        } else {
            None
        }
    }

    /// Reads a version from its name. Names other than the two recognized
    /// ones are outside this function's domain; `from_token` reports them.
    pub fn from(value: &str) -> (v: HttpVersion)
        requires
            HttpVersion::of_token(encode_utf8(value@)) is Some,
        ensures
            Some(v) == HttpVersion::of_token(encode_utf8(value@)),
            v.name() == value@,
    {
        let v = HttpVersion::from_token(value.as_bytes()).unwrap();
        proof {
            lemma_encode_utf8_injective(v.name(), value@);
        }
        v
    }
}

/// A status code's wire form is plain ASCII without a carriage return.
pub proof fn lemma_status_text(code: HttpCode)
    ensures
        code.text().len() > 0,
        is_ascii_chars(code.text()),
        forall|i: int| 0 <= i < code.text().len() ==> code.text()[i] != '\r',
{
    reveal_with_fuel(decimal, 3);
    reveal_strlit("OK");
    reveal_strlit("Not Found");
    reveal_strlit("Created");
    reveal_strlit("Internal Server Error");
}

/// A method's token is made of capital letters, and names that method
/// alone.
pub proof fn lemma_method_token(method: Method)
    ensures
        method.token().len() > 0,
        forall|i: int|
            0 <= i < method.token().len() ==> 65 <= #[trigger] method.token()[i] <= 90,
        Method::of_token(method.token()) == Some(method),
{
    reveal_strlit("GET");
    reveal_strlit("POST");
    reveal_strlit("PUT");
    reveal_strlit("DELETE");
    is_ascii_chars_encode_utf8(Method::Get.name());
    is_ascii_chars_encode_utf8(Method::Post.name());
    is_ascii_chars_encode_utf8(Method::Put.name());
    is_ascii_chars_encode_utf8(Method::Delete.name());
}

/// A version's token holds no space and no line terminator, and names that
/// version alone.
pub proof fn lemma_version_token(version: HttpVersion)
    ensures
        version.token().len() > 0,
        forall|i: int|
            0 <= i < version.token().len() ==> 46 <= #[trigger] version.token()[i] <= 90,
        HttpVersion::of_token(version.token()) == Some(version),
{
    reveal_strlit("HTTP/1.0");
    reveal_strlit("HTTP/1.1");
    is_ascii_chars_encode_utf8(HttpVersion::V1_0.name());
    is_ascii_chars_encode_utf8(HttpVersion::V1_1.name());
    assert(HttpVersion::V1_1.token()[7] == 49);
}

} // verus!
