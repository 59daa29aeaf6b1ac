//! Lines and tokens: how a byte stream is cut at CRLF pairs and how a line
//! is cut at a separator byte.

use crate::text::{find_byte, first_index, lemma_first_index};
use vstd::prelude::*;

verus! {

/// Carriage return.
pub const CR: u8 = 13;

/// Line feed.
pub const LF: u8 = 10;

/// Space, which separates the tokens of a request line.
pub const SP: u8 = 32;

/// Colon, which separates a header's name from its value.
pub const COLON: u8 = 58;

/// The zero byte, which ends a body early.
pub const NUL: u8 = 0;

/// The two bytes that end a line.
pub open spec fn crlf() -> Seq<u8> {
    seq![CR, LF]
}

/// A CRLF pair starts at position `i` of `s`.
pub open spec fn crlf_at(s: Seq<u8>, i: int) -> bool {
    0 <= i && i + 1 < s.len() && s[i] == CR && s[i + 1] == LF
}

/// Length of the first line of `s`: the position of the first CRLF pair, or
/// all of `s` where it holds none. A lone LF ends nothing.
pub open spec fn line_len(s: Seq<u8>) -> nat
    decreases s.len(),
{
    if s.len() == 0 || crlf_at(s, 0) {
        0
    } else {
        1 + line_len(s.drop_first())
    }
}

/// The first line of `s`, without its terminator.
pub open spec fn first_line(s: Seq<u8>) -> Seq<u8> {
    s.take(line_len(s) as int)
}

/// What follows the first line of `s` and its terminator; empty where the
/// line had no terminator.
pub open spec fn after_line(s: Seq<u8>) -> Seq<u8> {
    if line_len(s) + 2 <= s.len() {
        s.skip(line_len(s) as int + 2)
    } else {
        Seq::empty()
    }
}

/// No byte of `s` starts a CRLF pair.
pub open spec fn crlf_free(s: Seq<u8>) -> bool {
    forall|i: int| !crlf_at(s, i)
}

/// `line_len` stays within the sequence, no CRLF pair starts before it, and
/// where it is inside the sequence a CRLF pair starts there.
pub proof fn lemma_line_len(s: Seq<u8>)
    ensures
        line_len(s) <= s.len(),
        forall|i: int| 0 <= i < line_len(s) ==> !crlf_at(s, i),
        line_len(s) < s.len() ==> crlf_at(s, line_len(s) as int),
    decreases s.len(),
{
    if s.len() > 0 && !crlf_at(s, 0) {
        let t = s.drop_first();
        lemma_line_len(t);
        assert forall|i: int| 0 <= i < line_len(s) implies !crlf_at(s, i) by {
            if i > 0 {
                assert(crlf_at(s, i) == crlf_at(t, i - 1));
            }
        }
    }
}

/// Any position that no CRLF pair precedes and that either ends the sequence
/// or starts a CRLF pair is the length of the first line.
pub proof fn lemma_line_len_is(s: Seq<u8>, n: int)
    requires
        0 <= n <= s.len(),
        forall|i: int| 0 <= i < n ==> !crlf_at(s, i),
        n < s.len() ==> crlf_at(s, n),
    ensures
        line_len(s) == n,
    decreases s.len(),
{
    if s.len() > 0 && !crlf_at(s, 0) {
        let t = s.drop_first();
        assert forall|i: int| 0 <= i < n - 1 implies !crlf_at(t, i) by {
            assert(crlf_at(t, i) == crlf_at(s, i + 1));
        }
        lemma_line_len_is(t, n - 1);
    }
}

/// A line without a CRLF pair, its terminator and more bytes split back into
/// the line and those bytes.
pub proof fn lemma_line_then_rest(line: Seq<u8>, rest: Seq<u8>)
    requires
        crlf_free(line),
    ensures
        first_line(line + crlf() + rest) == line,
        after_line(line + crlf() + rest) == rest,
{
    let s = line + crlf() + rest;
    let n = line.len() as int;
    assert forall|i: int| 0 <= i < n implies !crlf_at(s, i) by {
        if i + 1 < n {
            assert(crlf_at(s, i) == crlf_at(line, i));
        }
    }
    lemma_line_len_is(s, n);
}

/// The pieces of `s` between occurrences of `sep`. A sequence without `sep`
/// is one piece; a trailing `sep` is followed by an empty piece.
pub open spec fn split(s: Seq<u8>, sep: u8) -> Seq<Seq<u8>>
    decreases s.len(),
{
    let n = first_index(s, sep);
    if n >= s.len() {
        seq![s]
    } else {
        seq![s.take(n as int)] + split(s.skip(n as int + 1), sep)
    }
}

/// Cuts `s` at each occurrence of `sep`.
pub fn split_bytes<'a>(s: &'a [u8], sep: u8) -> (pieces: Vec<&'a [u8]>)
    ensures
        pieces@.len() == split(s@, sep).len(),
        forall|i: int| 0 <= i < pieces@.len() ==> pieces@[i]@ == split(s@, sep)[i],
{
    let mut pieces: Vec<&'a [u8]> = Vec::new();
    let mut rest = s;
    loop
        invariant
            split(s@, sep).len() == pieces@.len() + split(rest@, sep).len(),
            forall|i: int| 0 <= i < pieces@.len() ==> pieces@[i]@ == split(s@, sep)[i],
            forall|i: int|
                0 <= i < split(rest@, sep).len() ==> split(rest@, sep)[i] == split(s@, sep)[pieces@.len()
                    + i],
        decreases rest@.len(),
    {
        let n = find_byte(rest, sep);
        if n >= rest.len() {
            proof {
                assert(split(rest@, sep)[0] == split(s@, sep)[pieces@.len() as int]);
            }
            pieces.push(rest);
            return pieces;
        }
        let piece = &rest[0..n];
        let tail = &rest[n + 1..rest.len()];
        proof {
            assert forall|i: int| 0 <= i < split(tail@, sep).len() implies split(tail@, sep)[i]
                == split(s@, sep)[pieces@.len() + 1 + i] by {
                assert(split(tail@, sep)[i] == split(rest@, sep)[i + 1]);
            }
            assert(split(rest@, sep)[0] == piece@);
        }
        pieces.push(piece);
        rest = tail;
    }
}

/// `s` holds no byte `b`.
pub open spec fn free_of(s: Seq<u8>, b: u8) -> bool {
    forall|i: int| 0 <= i < s.len() ==> s[i] != b
}

/// A sequence without the separator is its own single piece.
pub proof fn lemma_split_one(s: Seq<u8>, sep: u8)
    requires
        free_of(s, sep),
    ensures
        split(s, sep) == seq![s],
{
    lemma_first_index(s, sep);
}

/// A piece without the separator, the separator and more bytes split into
/// that piece followed by the pieces of those bytes.
pub proof fn lemma_split_cons(head: Seq<u8>, tail: Seq<u8>, sep: u8)
    requires
        free_of(head, sep),
    ensures
        split(head + seq![sep] + tail, sep) == seq![head] + split(tail, sep),
{
    let s = head + seq![sep] + tail;
    let n = head.len() as int;
    crate::text::lemma_first_index_is(s, sep, n);
    assert(s.take(n) =~= head);
    assert(s.skip(n + 1) =~= tail);
}

/// Two sequences without a CRLF pair hold none when joined, unless the pair
/// forms at the joint.
pub proof fn lemma_crlf_free_concat(a: Seq<u8>, b: Seq<u8>)
    requires
        crlf_free(a),
        crlf_free(b),
        a.len() == 0 || b.len() == 0 || a.last() != CR || b[0] != LF,
    ensures
        crlf_free(a + b),
{
    let s = a + b;
    assert forall|i: int| !crlf_at(s, i) by {
        if crlf_at(s, i) {
            if i + 1 < a.len() {
                assert(crlf_at(a, i));
            } else if i >= a.len() {
                assert(crlf_at(b, i - a.len()));
            }
        }
    }
}

/// `lines` in order, each followed by its terminator.
pub open spec fn terminated(lines: Seq<Seq<u8>>) -> Seq<u8>
    decreases lines.len(),
{
    if lines.len() == 0 {
        Seq::empty()
    } else {
        terminated(lines.drop_last()) + lines.last() + crlf()
    }
}

/// The lines of a block: the lines of `s` up to its first empty line.
pub open spec fn block_lines(s: Seq<u8>) -> Seq<Seq<u8>>
    decreases s.len(),
{
    let line = first_line(s);
    if line.len() == 0 {
        Seq::empty()
    } else {
        seq![line] + block_lines(after_line(s))
    }
}

/// What follows a block: the bytes after its first empty line.
pub open spec fn after_block(s: Seq<u8>) -> Seq<u8>
    decreases s.len(),
{
    let line = first_line(s);
    if line.len() == 0 {
        after_line(s)
    } else {
        after_block(after_line(s))
    }
}

/// Terminated lines begin with the first line and its terminator.
pub proof fn lemma_terminated_front(lines: Seq<Seq<u8>>)
    requires
        lines.len() > 0,
    ensures
        terminated(lines) == lines[0] + crlf() + terminated(lines.drop_first()),
    decreases lines.len(),
{
    if lines.len() == 1 {
        assert(terminated(lines.drop_last()) =~= Seq::<u8>::empty());
    } else {
        let front = lines.drop_last();
        lemma_terminated_front(front);
        assert(front.drop_first() =~= lines.drop_first().drop_last());
    }
}

/// Lines that are not empty and hold no CRLF pair, written out with their
/// terminators and followed by an empty line and a body, are cut back into
/// the same lines and the same body.
pub proof fn lemma_block_round_trip(lines: Seq<Seq<u8>>, body: Seq<u8>)
    requires
        forall|i: int| 0 <= i < lines.len() ==> lines[i].len() > 0 && crlf_free(#[trigger] lines[i]),
    ensures
        block_lines(terminated(lines) + crlf() + body) == lines,
        after_block(terminated(lines) + crlf() + body) == body,
    decreases lines.len(),
{
    let s = terminated(lines) + crlf() + body;
    if lines.len() > 0 {
        let rest = lines.drop_first();
        let tail = terminated(rest) + crlf() + body;
        lemma_terminated_front(lines);
        assert(s =~= lines[0] + crlf() + tail);
        lemma_line_then_rest(lines[0], tail);
        lemma_block_round_trip(rest, body);
    }
}

} // verus!
