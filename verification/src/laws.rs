//! What holds of the library as a whole: statements that relate the parser,
//! the router and the encoder to each other, each proved from the
//! definitions the functions' own contracts use.

use crate::headers::{as_map, distinct_names, lemma_as_map_empty, names, upsert, Field};
use crate::http::{lemma_method_token, lemma_version_token, HttpVersion, Method};
use crate::request::{
    after_headers, body, header_fields, header_line, request, start_line, ParseError, Request,
    RequestView,
};
use crate::response::{
    encode, field_line, field_lines, lemma_field_line, lemma_status_line, status_line, Response,
    ResponseView,
};
use crate::router::{
    accepting, answered, first_match, not_found, path_matches, ComparePath, Route,
};
use crate::text::{lemma_encode_utf8_concat, lemma_first_index, lemma_first_index_is, trim};
use crate::wire::{
    after_block, after_line, block_lines, crlf, crlf_free, first_line, free_of,
    lemma_block_round_trip, lemma_crlf_free_concat, lemma_line_then_rest, lemma_split_cons,
    lemma_split_one, lemma_terminated_front, terminated, COLON, SP,
};
use vstd::prelude::*;
use vstd::utf8::{
    encode_utf8, encode_utf8_decode_utf8, encode_utf8_valid_utf8, is_ascii_chars_encode_utf8,
};

verus! {

/// The bytes of a request line: a method's name, a path and a version's
/// name with single spaces between them.
pub open spec fn request_line(method: Method, path: Seq<char>, version: HttpVersion) -> Seq<u8> {
    method.token() + seq![SP] + encode_utf8(path) + seq![SP] + version.token()
}

/// A request line reads back as its parts. For every method, every version
/// and every path whose bytes hold neither a space nor a CRLF pair, the
/// stream that begins with the line and its terminator has that method,
/// that path and that version on its request line, and what follows the
/// terminator is left for the header block.
pub proof fn law_request_line_reads_back(
    method: Method,
    path: Seq<char>,
    version: HttpVersion,
    rest: Seq<u8>,
)
    requires
        free_of(encode_utf8(path), SP),
        crlf_free(encode_utf8(path)),
    ensures
        first_line(request_line(method, path, version) + crlf() + rest) == request_line(
            method,
            path,
            version,
        ),
        start_line(request_line(method, path, version)) == Ok::<_, ParseError>(
            (method, path, version),
        ),
        after_line(request_line(method, path, version) + crlf() + rest) == rest,
{
    let m = method.token();
    let p = encode_utf8(path);
    let v = version.token();
    let line = request_line(method, path, version);
    lemma_method_token(method);
    lemma_version_token(version);
    // The three tokens.
    lemma_split_one(v, SP);
    lemma_split_cons(p, v, SP);
    assert(m + seq![SP] + (p + seq![SP] + v) =~= line);
    lemma_split_cons(m, p + seq![SP] + v, SP);
    encode_utf8_valid_utf8(path);
    encode_utf8_decode_utf8(path);
    // The line holds no terminator of its own.
    lemma_crlf_free_concat(m + seq![SP], p);
    lemma_crlf_free_concat(m + seq![SP] + p, seq![SP]);
    lemma_crlf_free_concat(m + seq![SP] + p + seq![SP], v);
    lemma_line_then_rest(line, rest);
}

/// A stream that begins with a request line is a request with that line's
/// method, path and version, whatever header block and body follow; it
/// fails only where the header block does.
pub proof fn law_request_reads_back(
    method: Method,
    path: Seq<char>,
    version: HttpVersion,
    rest: Seq<u8>,
)
    requires
        free_of(encode_utf8(path), SP),
        crlf_free(encode_utf8(path)),
    ensures
        request(request_line(method, path, version) + crlf() + rest) == match header_fields(
            rest,
            Seq::empty(),
        ) {
            Ok(fields) => Ok(
                RequestView {
                    method,
                    path,
                    version,
                    headers: as_map(fields),
                    body: body(after_headers(rest)),
                },
            ),
            Err(e) => Err(e),
        },
{
    law_request_line_reads_back(method, path, version, rest);
}

/// A request without header fields reads back whole: the request line, an
/// empty line and a body give a request with that method, path and
/// version, no header fields, and the body up to its first zero byte.
pub proof fn law_bare_request_reads_back(
    method: Method,
    path: Seq<char>,
    version: HttpVersion,
    content: Seq<u8>,
)
    requires
        free_of(encode_utf8(path), SP),
        crlf_free(encode_utf8(path)),
    ensures
        request(request_line(method, path, version) + crlf() + crlf() + content) == Ok::<
            _,
            ParseError,
        >(
            RequestView {
                method,
                path,
                version,
                headers: Map::empty(),
                body: body(content),
            },
        ),
{
    let line = request_line(method, path, version);
    let tail = crlf() + content;
    assert(line + crlf() + crlf() + content =~= line + crlf() + tail);
    law_request_reads_back(method, path, version, tail);
    lemma_line_then_rest(Seq::empty(), content);
    lemma_as_map_empty();
}

/// The fields that a sequence of header lines sets, one after the other,
/// on top of `seen`.
pub open spec fn fields_of(lines: Seq<Seq<u8>>, seen: Seq<Field>) -> Seq<Field>
    decreases lines.len(),
{
    if lines.len() == 0 {
        seen
    } else {
        let field = header_line(lines[0])->Ok_0;
        fields_of(lines.drop_first(), upsert(seen, field.0, field.1))
    }
}

/// An empty line ends the header block and leaves the body untouched. For
/// header lines that are not empty, hold no CRLF pair and each have a
/// meaning, the stream made of the lines, an empty line and a body has the
/// fields of those lines, in their order, and leaves exactly the body.
pub proof fn law_empty_line_ends_headers(lines: Seq<Seq<u8>>, content: Seq<u8>, seen: Seq<Field>)
    requires
        forall|i: int|
            0 <= i < lines.len() ==> {
                &&& (#[trigger] lines[i]).len() > 0
                &&& crlf_free(lines[i])
                &&& header_line(lines[i]) is Ok
            },
    ensures
        header_fields(terminated(lines) + crlf() + content, seen) == Ok::<_, ParseError>(
            fields_of(lines, seen),
        ),
        after_headers(terminated(lines) + crlf() + content) == content,
    decreases lines.len(),
{
    let s = terminated(lines) + crlf() + content;
    if lines.len() > 0 {
        let rest = lines.drop_first();
        let tail = terminated(rest) + crlf() + content;
        lemma_terminated_front(lines);
        assert(s =~= lines[0] + crlf() + tail);
        lemma_line_then_rest(lines[0], tail);
        assert forall|i: int| 0 <= i < rest.len() implies {
            &&& (#[trigger] rest[i]).len() > 0
            &&& crlf_free(rest[i])
            &&& header_line(rest[i]) is Ok
        } by {
            assert(rest[i] == lines[i + 1]);
        }
        let field = header_line(lines[0])->Ok_0;
        law_empty_line_ends_headers(rest, content, upsert(seen, field.0, field.1));
    }
}

/// A header line that the encoder writes reads back as its field, trimmed.
/// This holds where the name holds no colon; with one, the name would end at
/// its first colon.
pub proof fn law_header_line_reads_back(name: Seq<char>, value: Seq<char>)
    requires
        free_of(encode_utf8(name), COLON),
    ensures
        header_line(field_line((name, value))) == Ok::<_, ParseError>((trim(name), trim(value))),
{
    let en = encode_utf8(name);
    let line = field_line((name, value));
    let colon = en.len() as int;
    lemma_first_index_is(line, COLON, colon);
    assert(line.take(colon) =~= en);
    encode_utf8_valid_utf8(name);
    encode_utf8_decode_utf8(name);
    // What follows the colon is the encoding of a space and the value.
    let spaced = seq![' '] + value;
    assert(encode_utf8(seq![' ']) =~= seq![SP]) by {
        is_ascii_chars_encode_utf8(seq![' ']);
    }
    lemma_encode_utf8_concat(seq![' '], value);
    assert(line.skip(colon + 1) =~= encode_utf8(spaced));
    encode_utf8_valid_utf8(spaced);
    encode_utf8_decode_utf8(spaced);
    assert(spaced.drop_first() =~= value);
}

/// The fields that the encoder's header lines set, on top of `seen`, are
/// `seen` followed by the fields themselves, where no name occurs twice.
proof fn lemma_fields_of_field_lines(fields: Seq<Field>, seen: Seq<Field>)
    requires
        distinct_names(seen + fields),
        forall|i: int|
            0 <= i < fields.len() ==> {
                &&& free_of(encode_utf8((#[trigger] fields[i]).0), COLON)
                &&& trim(fields[i].0) == fields[i].0
                &&& trim(fields[i].1) == fields[i].1
            },
    ensures
        fields_of(field_lines(fields), seen) == seen + fields,
    decreases fields.len(),
{
    if fields.len() > 0 {
        let first = fields[0];
        let rest = fields.drop_first();
        let all = seen + fields;
        law_header_line_reads_back(first.0, first.1);
        assert(field_lines(fields).drop_first() =~= field_lines(rest));
        assert forall|i: int| 0 <= i < seen.len() implies names(seen)[i] != first.0 by {
            assert(all[i] == seen[i]);
            assert(all[seen.len() as int] == first);
        }
        lemma_first_index_is(names(seen), first.0, seen.len() as int);
        let next = upsert(seen, first.0, first.1);
        assert(next + rest =~= all);
        assert forall|i: int| 0 <= i < rest.len() implies {
            &&& free_of(encode_utf8((#[trigger] rest[i]).0), COLON)
            &&& trim(rest[i].0) == rest[i].0
            &&& trim(rest[i].1) == rest[i].1
        } by {
            assert(rest[i] == fields[i + 1]);
        }
        lemma_fields_of_field_lines(rest, next);
    }
}

/// What the encoder writes, the parser reads. The header block of an
/// encoded response, read as a request's header block, gives the response's
/// fields in their order and leaves the body untouched. This holds where
/// every name and value is trimmed and holds no CRLF pair, and no name
/// holds a colon.
pub proof fn law_headers_read_back(r: ResponseView)
    requires
        distinct_names(r.headers),
        forall|i: int|
            0 <= i < r.headers.len() ==> {
                &&& crlf_free(encode_utf8((#[trigger] r.headers[i]).0))
                &&& crlf_free(encode_utf8(r.headers[i].1))
                &&& free_of(encode_utf8(r.headers[i].0), COLON)
                &&& trim(r.headers[i].0) == r.headers[i].0
                &&& trim(r.headers[i].1) == r.headers[i].1
            },
    ensures
        header_fields(after_line(encode(r)), Seq::empty()) == Ok::<_, ParseError>(r.headers),
        after_headers(after_line(encode(r))) == r.body,
{
    let lines = field_lines(r.headers);
    let tail = terminated(lines) + crlf() + r.body;
    lemma_status_line(r.code);
    assert(encode(r) =~= status_line(r.code) + crlf() + tail);
    lemma_line_then_rest(status_line(r.code), tail);
    assert forall|i: int| 0 <= i < lines.len() implies {
        &&& (#[trigger] lines[i]).len() > 0
        &&& crlf_free(lines[i])
        &&& header_line(lines[i]) is Ok
    } by {
        lemma_field_line(r.headers[i]);
        law_header_line_reads_back(r.headers[i].0, r.headers[i].1);
    }
    law_empty_line_ends_headers(lines, r.body, Seq::empty());
    lemma_fields_of_field_lines(r.headers, Seq::empty());
}

/// Encoding a response and cutting the bytes at CRLF pairs gives back the
/// response: the first line is the status line, the lines up to the first
/// empty one are the header lines in their order, and what follows the
/// empty line is the body, byte for byte. This holds where no header name
/// or value holds a CRLF pair; a name or value with one would be cut in
/// two.
pub proof fn law_encode_round_trip(r: ResponseView)
    requires
        forall|i: int|
            0 <= i < r.headers.len() ==> {
                &&& crlf_free(encode_utf8((#[trigger] r.headers[i]).0))
                &&& crlf_free(encode_utf8(r.headers[i].1))
            },
    ensures
        first_line(encode(r)) == status_line(r.code),
        block_lines(after_line(encode(r))) == field_lines(r.headers),
        after_block(after_line(encode(r))) == r.body,
        block_lines(encode(r)) == seq![status_line(r.code)] + field_lines(r.headers),
        after_block(encode(r)) == r.body,
{
    let lines = field_lines(r.headers);
    let tail = terminated(lines) + crlf() + r.body;
    lemma_status_line(r.code);
    assert(encode(r) =~= status_line(r.code) + crlf() + tail);
    lemma_line_then_rest(status_line(r.code), tail);
    assert forall|i: int| 0 <= i < lines.len() implies lines[i].len() > 0 && crlf_free(
        #[trigger] lines[i],
    ) by {
        lemma_field_line(r.headers[i]);
    }
    lemma_block_round_trip(lines, r.body);
}

/// The first route that accepts a request answers it, and no later one
/// does. Where two routes of a table both accept a request, the table's
/// choice is a route at or before the earlier of the two, it accepts the
/// request, and no route before it does; where nothing before the earlier
/// one accepts, the choice is the earlier one.
pub proof fn law_first_match_wins<H: Fn(Request) -> Response>(
    routes: Seq<Route<H>>,
    req: RequestView,
    earlier: int,
    later: int,
)
    requires
        0 <= earlier < later < routes.len(),
        routes[earlier].accepts(req),
        routes[later].accepts(req),
    ensures
        first_match(routes, req) is Some,
        first_match(routes, req)->0 <= earlier,
        first_match(routes, req) != Some(later),
        routes[first_match(routes, req)->0].accepts(req),
        forall|k: int| 0 <= k < first_match(routes, req)->0 ==> !routes[k].accepts(req),
        (forall|k: int| 0 <= k < earlier ==> !routes[k].accepts(req)) ==> first_match(routes, req)
            == Some(earlier),
{
    let flags = accepting(routes, req);
    lemma_first_index(flags, true);
    assert(flags[earlier]);
    let chosen = first_match(routes, req)->0;
    assert forall|k: int| 0 <= k < chosen implies !routes[k].accepts(req) by {
        assert(!flags[k]);
    }
}

/// Routes behind the first accepting one have no say. Where a table
/// accepts a request, the table with more routes added behind it chooses
/// the same route and gives the same answers.
pub proof fn law_later_routes_have_no_say<H: Fn(Request) -> Response>(
    routes: Seq<Route<H>>,
    added: Seq<Route<H>>,
    req: Request,
    res: Response,
)
    requires
        first_match(routes, req@) is Some,
    ensures
        first_match(routes + added, req@) == first_match(routes, req@),
        answered(routes + added, req, res) <==> answered(routes, req, res),
{
    let flags = accepting(routes, req@);
    let all = accepting(routes + added, req@);
    let chosen = first_match(routes, req@)->0;
    lemma_first_index(flags, true);
    assert forall|k: int| 0 <= k < chosen implies all[k] != true by {
        assert(!flags[k]);
    }
    lemma_first_index_is(all, true, chosen);
}

/// With two routes that both accept a request, the answer is the earlier
/// route's handler's.
pub proof fn law_earlier_handler_answers<H: Fn(Request) -> Response>(
    first: Route<H>,
    second: Route<H>,
    req: Request,
    res: Response,
)
    requires
        first.accepts(req@),
        second.accepts(req@),
        answered(seq![first, second], req, res),
    ensures
        call_ensures(first.handler(), (req,), res),
{
}

/// A request that no route accepts is answered with `not_found`.
pub proof fn law_no_match_is_not_found<H: Fn(Request) -> Response>(
    routes: Seq<Route<H>>,
    req: Request,
    res: Response,
)
    requires
        forall|i: int| 0 <= i < routes.len() ==> !routes[i].accepts(req@),
        answered(routes, req, res),
    ensures
        first_match(routes, req@) is None,
        res@ == not_found(),
{
    let flags = accepting(routes, req@);
    lemma_first_index_is(flags, true, flags.len() as int);
}

/// A prefix route accepts every path that continues its own, wherever the
/// continuation starts: no segment boundary is asked for. An exact route
/// accepts its own path and no other.
pub proof fn law_prefix_and_exact(route_path: Seq<char>, suffix: Seq<char>, other: Seq<char>)
    ensures
        path_matches(ComparePath::Prefix, route_path, route_path + suffix),
        path_matches(ComparePath::Exact, route_path, other) <==> other == route_path,
{
    lemma_encode_utf8_concat(route_path, suffix);
}

} // verus!
