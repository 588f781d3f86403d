//! Replies of a RESP server: their shapes, how reply bytes decode into them,
//! and a rendering for display.
use vstd::prelude::*;

use crate::decimal::{i64_value, int_chars};

verus! {

broadcast use {
    vstd::seq::axiom_seq_index_decreases,
    vstd::seq::axiom_seq_subrange_decreases,
    vstd::std_specs::vec::axiom_vec_index_decreases,
};

/// The text that `String::from_utf8_lossy` makes of some bytes.
pub uninterp spec fn utf8_lossy(b: Seq<u8>) -> Seq<char>;

/// Relies on `String::from_utf8_lossy`: its text depends on the bytes alone.
#[verifier::external_body]
fn text_of(b: &[u8]) -> (r: String)
    ensures
        r@ == utf8_lossy(b@),
{
    String::from_utf8_lossy(b).into_owned()
}

/// A reply as a mathematical value.
pub enum Reply {
    Simple(Seq<char>),
    Error(Seq<char>),
    Integer(int),
    Bulk(Option<Seq<char>>),
    Array(Option<Seq<Reply>>),
    Malformed(Seq<char>),
}

pub open spec fn is_line_break(b: u8) -> bool {
    b == 13 || b == 10
}

/// The first position at or after `p` that holds CR or LF, or the end of `s`.
pub open spec fn line_end(s: Seq<u8>, p: int) -> int
    decreases s.len() - p,
{
    if p < 0 || p >= s.len() {
        s.len() as int
    } else if is_line_break(s[p]) {
        p
    } else {
        line_end(s, p + 1)
    }
}

/// A line that starts at `p`: the bytes up to the first CR or LF, which must
/// begin a CRLF, and the position after that CRLF.
pub open spec fn line_at(s: Seq<u8>, p: int) -> Option<(Seq<u8>, int)> {
    let q = line_end(s, p);
    if 0 <= p <= q && q + 1 < s.len() && s[q] == 13 && s[q + 1] == 10 {
        Some((s.subrange(p, q), q + 2))
    } else {
        None
    }
}

/// The signed decimal on the line after the sentinel at `p`, and the position after the line.
pub open spec fn number_line_at(s: Seq<u8>, p: int) -> Option<(int, int)> {
    match line_at(s, p + 1) {
        Some((t, e)) => match i64_value(t) {
            Some(n) => Some((n, e)),
            None => None,
        },
        None => None,
    }
}

pub open spec fn mismatch_text(count: int, got: int) -> Seq<char> {
    "expect "@ + int_chars(count) + " items, got "@ + int_chars(got)
}

/// The reply that starts at position `p` of `s`, and the position after it.
/// The items of an array may be replies of any kind, arrays too. An array
/// that holds fewer replies than it declares gives `Malformed` (and so does
/// any array holding such an array).
pub open spec fn reply_at(s: Seq<u8>, p: int) -> Option<(Reply, int)>
    decreases s.len() - p, 0int,
{
    if p < 0 || p >= s.len() {
        None
    } else if s[p] == 43 {
        match line_at(s, p + 1) {
            Some((t, e)) => Some((Reply::Simple(utf8_lossy(t)), e)),
            None => None,
        }
    } else if s[p] == 45 {
        match line_at(s, p + 1) {
            Some((t, e)) => Some((Reply::Error(utf8_lossy(t)), e)),
            None => None,
        }
    } else if s[p] == 58 {
        match number_line_at(s, p) {
            Some((n, e)) => Some((Reply::Integer(n), e)),
            None => None,
        }
    } else if s[p] == 36 {
        match number_line_at(s, p) {
            Some((n, e)) => if n == -1 {
                Some((Reply::Bulk(None), e))
            } else if 0 <= n && e + n + 2 <= s.len() && s[e + n] == 13 && s[e + n + 1] == 10 {
                Some((Reply::Bulk(Some(utf8_lossy(s.subrange(e, e + n)))), e + n + 2))
            } else {
                None
            },
            None => None,
        }
    } else if s[p] == 42 {
        match number_line_at(s, p) {
            Some((n, e)) => if n == -1 {
                Some((Reply::Array(None), e))
            } else if 0 <= n && p < e <= s.len() {
                match items_at(s, e, n, 0) {
                    Ok((items, end)) => Some((Reply::Array(Some(items)), end)),
                    Err((bad, end)) => Some((bad, end)),
                }
            } else {
                None
            },
            None => None,
        }
    } else {
        None
    }
}

/// The items of an array that declares `count` items, of which `got` are
/// already read, starting at `p`: the items and the position after them, or
/// the `Malformed` reply that ends the array and the position where it ends.
pub open spec fn items_at(s: Seq<u8>, p: int, count: int, got: int) -> Result<
    (Seq<Reply>, int),
    (Reply, int),
>
    decreases s.len() - p, 1int,
{
    if got >= count {
        Ok((Seq::empty(), p))
    } else {
        match reply_at(s, p) {
            None => Err((Reply::Malformed(mismatch_text(count, got)), p)),
            Some((v, q)) => if v is Malformed {
                Err((v, q))
            } else if q <= p || q > s.len() {
                Err((Reply::Malformed(mismatch_text(count, got)), p))
            } else {
                match items_at(s, q, count, got + 1) {
                    Ok((rest, end)) => Ok((seq![v] + rest, end)),
                    Err(bad) => Err(bad),
                }
            },
        }
    }
}

} // verus!

verus! {

/// What a reply holds on the wire, once decoded.
#[derive(Debug, PartialEq)]
pub enum Resp {
    StringLine(String),
    Error(String),
    Int(i64),
    Batch(Option<String>),
    MultiBatch(Option<Vec<Resp>>),
    BadReply(String),
}

impl Resp {
    pub open spec fn model(self) -> Reply
        decreases self,
    {
        match self {
            Resp::StringLine(s) => Reply::Simple(s@),
            Resp::Error(s) => Reply::Error(s@),
            Resp::Int(n) => Reply::Integer(n as int),
            Resp::Batch(b) => Reply::Bulk(
                match b {
                    Some(s) => Some(s@),
                    None => None,
                },
            ),
            Resp::MultiBatch(Some(items)) => Reply::Array(
                Some(
                    Seq::new(
                        items@.len(),
                        |i: int|
                            if 0 <= i < items@.len() {
                                items@[i].model()
                            } else {
                                Reply::Integer(0)
                            },
                    ),
                ),
            ),
            Resp::MultiBatch(None) => Reply::Array(None),
            Resp::BadReply(s) => Reply::Malformed(s@),
        }
    }
}

/// No reply of the grammar starts the input.
#[derive(Debug, Clone, Copy, PartialEq, Eq)]
pub enum ParseError {
    Unrecognized,
}

/// Relies on `String::push`: appends one character.
#[verifier::external_body]
fn push_char(s: &mut String, c: char)
    ensures
        final(s)@ == old(s)@.push(c),
{
    s.push(c)
}

pub open spec fn ascii_chars(b: Seq<u8>) -> Seq<char> {
    b.map_values(|x: u8| x as char)
}

/// Appends each byte of `b` as the character of that code.
fn push_ascii(s: &mut String, b: &[u8])
    ensures
        final(s)@ == old(s)@ + ascii_chars(b@),
{
    let ghost start = s@;
    let mut i: usize = 0;
    while i < b.len()
        invariant
            0 <= i <= b@.len(),
            s@ == start + ascii_chars(b@.subrange(0, i as int)),
        decreases b@.len() - i,
    {
        push_char(s, b[i] as char);
        assert(ascii_chars(b@.subrange(0, i + 1)) =~= ascii_chars(b@.subrange(0, i as int)).push(
            b@[i as int] as char,
        ));
        i += 1;
    }
    assert(b@.subrange(0, b@.len() as int) =~= b@);
}

fn mismatch_string(count: i64, got: i64) -> (r: String)
    ensures
        r@ == mismatch_text(count as int, got as int),
{
    let mut r = String::from_str("expect ");
    push_ascii(&mut r, crate::decimal::i64_text(count).as_slice());
    r.append(" items, got ");
    push_ascii(&mut r, crate::decimal::i64_text(got).as_slice());
    r
}

/// Finds the line that starts at `p`; gives the position of its CR.
fn find_line(s: &[u8], p: usize) -> (r: Option<usize>)
    requires
        p <= s@.len(),
    ensures
        r is None <==> line_at(s@, p as int) is None,
        r matches Some(q) ==> p <= q && q + 2 <= s@.len() && line_at(s@, p as int) == Some(
            (s@.subrange(p as int, q as int), q + 2),
        ),
{
    let len = s.len();
    let mut q: usize = p;
    while q < len && s[q] != 13u8 && s[q] != 10u8
        invariant
            p <= q <= s@.len(),
            len == s@.len(),
            line_end(s@, q as int) == line_end(s@, p as int),
        decreases s@.len() - q,
    {
        q += 1;
    }
    if len > 0 && q < len - 1 && s[q] == 13u8 && s[q + 1] == 10u8 {
        Some(q)
    } else {
        None
    }
}

/// Reads the signed decimal line after the sentinel at `p`.
fn number_line(s: &[u8], p: usize) -> (r: Option<(i64, usize)>)
    requires
        p < s@.len(),
    ensures
        r is None <==> number_line_at(s@, p as int) is None,
        r matches Some((n, e)) ==> number_line_at(s@, p as int) == Some((n as int, e as int)) && p
            < e <= s@.len(),
{
    let len = s.len();
    match find_line(s, p + 1) {
        None => None,
        Some(q) => match crate::decimal::parse_i64(s, p + 1, q) {
            Some(n) => Some((n, q + 2)),
            None => None,
        },
    }
}

pub open spec fn prepend(done: Seq<Reply>, r: Result<(Seq<Reply>, int), (Reply, int)>) -> Result<
    (Seq<Reply>, int),
    (Reply, int),
> {
    match r {
        Ok((rest, end)) => Ok((done + rest, end)),
        Err(bad) => Err(bad),
    }
}

/// Reads the reply that starts at `p`.
fn reply_from(s: &[u8], p: usize) -> (r: Option<(Resp, usize)>)
    requires
        p <= s@.len(),
    ensures
        r is None <==> reply_at(s@, p as int) is None,
        r matches Some((v, q)) ==> reply_at(s@, p as int) == Some((v.model(), q as int)) && p < q
            <= s@.len(),
    decreases s@.len() - p, 0int,
{
    if p >= s.len() {
        return None;
    }
    let c = s[p];
    if c == 43u8 || c == 45u8 {
        match find_line(s, p + 1) {
            None => None,
            Some(q) => {
                let t = text_of(vstd::slice::slice_subrange(s, p + 1, q));
                if c == 43u8 {
                    Some((Resp::StringLine(t), q + 2))
                } else {
                    Some((Resp::Error(t), q + 2))
                }
            },
        }
    } else if c == 58u8 {
        match number_line(s, p) {
            None => None,
            Some((n, e)) => Some((Resp::Int(n), e)),
        }
    } else if c == 36u8 {
        match number_line(s, p) {
            None => None,
            Some((n, e)) => {
                if n == -1 {
                    Some((Resp::Batch(None), e))
                } else if n >= 0 && (n as u64) + 2 <= (s.len() - e) as u64 {
                    let m = n as usize;
                    if s[e + m] == 13u8 && s[e + m + 1] == 10u8 {
                        let t = text_of(vstd::slice::slice_subrange(s, e, e + m));
                        Some((Resp::Batch(Some(t)), e + m + 2))
                    } else {
                        None
                    }
                } else {
                    None
                }
            },
        }
    } else if c == 42u8 {
        match number_line(s, p) {
            None => None,
            Some((n, e)) => {
                if n == -1 {
                    Some((Resp::MultiBatch(None), e))
                } else if n >= 0 {
                    Some(items_from(s, e, n))
                } else {
                    None
                }
            },
        }
    } else {
        None
    }
}

/// Reads the `count` items of an array, starting at `p`.
fn items_from(s: &[u8], p: usize, count: i64) -> (r: (Resp, usize))
    requires
        p <= s@.len(),
        0 <= count,
    ensures
        p <= r.1 <= s@.len(),
        match items_at(s@, p as int, count as int, 0) {
            Ok((items, end)) => r.0.model() == Reply::Array(Some(items)) && r.1 == end,
            Err((bad, end)) => r.0.model() == bad && r.1 == end,
        },
    decreases s@.len() - p, 1int,
{
    let mut items: Vec<Resp> = Vec::new();
    let ghost mut done: Seq<Reply> = Seq::empty();
    let mut q: usize = p;
    let mut got: i64 = 0;
    proof {
        match items_at(s@, p as int, count as int, 0) {
            Ok((rest, end)) => {
                assert(done + rest =~= rest);
            },
            Err(_) => {},
        }
    }
    while got < count
        invariant
            p <= q <= s@.len(),
            0 <= got <= count,
            items@.len() == got,
            done.len() == got,
            forall|i: int| 0 <= i < got ==> (#[trigger] items@[i]).model() == done[i],
            items_at(s@, p as int, count as int, 0) == prepend(
                done,
                items_at(s@, q as int, count as int, got as int),
            ),
        decreases count - got,
    {
        match reply_from(s, q) {
            None => {
                return (Resp::BadReply(mismatch_string(count, got)), q);
            },
            Some((v, q2)) => {
                if matches!(v, Resp::BadReply(_)) {
                    return (v, q2);
                }
                let ghost vm = v.model();
                proof {
                    match items_at(s@, q2 as int, count as int, got + 1) {
                        Ok((rest, end)) => {
                            assert(done + (seq![vm] + rest) =~= done.push(vm) + rest);
                        },
                        Err(_) => {},
                    }
                }
                items.push(v);
                proof {
                    done = done.push(vm);
                }
                q = q2;
                got = got + 1;
            },
        }
    }
    let r = Resp::MultiBatch(Some(items));
    assert(r.model() == Reply::Array(Some(done))) by {
        if let Reply::Array(Some(m)) = r.model() {
            assert(m =~= done);
        }
    }
    (r, q)
}

} // verus!

verus! {

/// The reply at the start of `s`, where `s` starts with the sentinel byte `c`.
pub open spec fn parse_as(s: Seq<u8>, c: u8) -> Option<(Reply, int)> {
    if s.len() > 0 && s[0] == c {
        reply_at(s, 0)
    } else {
        None
    }
}

/// `r` is what a parse of `s` gives, where the grammar finds `expected`:
/// the reply and the bytes after it, or an error where nothing matches.
pub open spec fn parsed<'a>(
    s: Seq<u8>,
    expected: Option<(Reply, int)>,
    r: Result<(&'a [u8], Resp), ParseError>,
) -> bool {
    match expected {
        None => r is Err,
        Some((v, e)) => r matches Ok((rest, resp)) && resp.model() == v && rest@ == s.subrange(
            e,
            s.len() as int,
        ),
    }
}

fn parse_with<'a>(i: &'a [u8], c: Option<u8>) -> (r: Result<(&'a [u8], Resp), ParseError>)
    ensures
        parsed(
            i@,
            match c {
                Some(c) => parse_as(i@, c),
                None => reply_at(i@, 0),
            },
            r,
        ),
{
    if let Some(c) = c {
        if i.len() == 0 || i[0] != c {
            return Err(ParseError::Unrecognized);
        }
    }
    match reply_from(i, 0) {
        None => Err(ParseError::Unrecognized),
        Some((v, e)) => Ok((vstd::slice::slice_subrange(i, e, i.len()), v)),
    }
}

/// Parses the reply at the start of `i`; gives the bytes after it too.
pub fn parse<'a>(i: &'a [u8]) -> (r: Result<(&'a [u8], Resp), ParseError>)
    ensures
        parsed(i@, reply_at(i@, 0), r),
{
    parse_with(i, None)
}

/// Parses a simple string (`+`) at the start of `i`.
pub fn parse_single_line<'a>(i: &'a [u8]) -> (r: Result<(&'a [u8], Resp), ParseError>)
    ensures
        parsed(i@, parse_as(i@, 43), r),
{
    parse_with(i, Some(43u8))
}

/// Parses an error reply (`-`) at the start of `i`.
pub fn parse_err<'a>(i: &'a [u8]) -> (r: Result<(&'a [u8], Resp), ParseError>)
    ensures
        parsed(i@, parse_as(i@, 45), r),
{
    parse_with(i, Some(45u8))
}

/// Parses an integer reply (`:`) at the start of `i`.
pub fn parse_int<'a>(i: &'a [u8]) -> (r: Result<(&'a [u8], Resp), ParseError>)
    ensures
        parsed(i@, parse_as(i@, 58), r),
{
    parse_with(i, Some(58u8))
}

/// Parses a bulk string (`$`) at the start of `i`.
pub fn parse_batch<'a>(i: &'a [u8]) -> (r: Result<(&'a [u8], Resp), ParseError>)
    ensures
        parsed(i@, parse_as(i@, 36), r),
{
    parse_with(i, Some(36u8))
}

/// Parses an array (`*`) at the start of `i`.
pub fn parse_multi_batch<'a>(i: &'a [u8]) -> (r: Result<(&'a [u8], Resp), ParseError>)
    ensures
        parsed(i@, parse_as(i@, 42), r),
{
    parse_with(i, Some(42u8))
}

pub open spec fn no_match_text() -> Seq<char> {
    "no reply matches the input"@
}

pub open spec fn remaining_text(rest: Seq<u8>) -> Seq<char> {
    "remaining bytes: "@ + utf8_lossy(rest)
}

/// What a whole buffer decodes to: its reply, which must take up all of it.
/// Bytes left after a well-formed reply make the result `Malformed`; a reply
/// that is `Malformed` already (an array short of items) stays as it is.
pub open spec fn decode(s: Seq<u8>) -> Reply {
    match reply_at(s, 0) {
        None => Reply::Malformed(no_match_text()),
        Some((v, e)) => if v is Malformed || e == s.len() {
            v
        } else {
            Reply::Malformed(remaining_text(s.subrange(e, s.len() as int)))
        },
    }
}

/// The display text of a reply.
pub open spec fn render_reply(r: Reply) -> Seq<char>
    decreases r,
{
    match r {
        Reply::Simple(t) => "+ "@ + t,
        Reply::Error(t) => "- "@ + t,
        Reply::Integer(n) => ": "@ + int_chars(n),
        Reply::Bulk(Some(t)) => "$ "@ + t,
        Reply::Bulk(None) => "$-1"@,
        Reply::Array(Some(items)) => "* "@ + int_chars(items.len() as int) + "\r\n"@ + render_items(
            items,
        ),
        Reply::Array(None) => "*-1"@,
        Reply::Malformed(m) => "parse reply failed: "@ + m,
    }
}

/// The display texts of the items, joined by CRLF.
pub open spec fn render_items(items: Seq<Reply>) -> Seq<char>
    decreases items,
{
    if items.len() == 0 {
        Seq::empty()
    } else if items.len() == 1 {
        render_reply(items[0])
    } else {
        render_items(items.drop_last()) + "\r\n"@ + render_reply(items.last())
    }
}

impl Resp {
    /// Decodes a whole buffer of reply bytes.
    pub fn parse_response(src: &[u8]) -> (r: Resp)
        ensures
            r.model() == decode(src@),
    {
        match reply_from(src, 0) {
            None => Resp::BadReply(String::from_str("no reply matches the input")),
            Some((v, e)) => {
                if e == src.len() || matches!(v, Resp::BadReply(_)) {
                    v
                } else {
                    let rest = text_of(vstd::slice::slice_subrange(src, e, src.len()));
                    let mut m = String::from_str("remaining bytes: ");
                    m.append(rest.as_str());
                    Resp::BadReply(m)
                }
            },
        }
    }

    /// Decodes the reply bytes that the transport collected.
    pub fn from_resp(src: &bytes::BytesMut) -> (r: Resp)
        ensures
            r.model() == decode(crate::buffer::buffer_bytes(*src)),
    {
        Resp::parse_response(crate::buffer::buffer_slice(src))
    }

    /// The display text of this reply.
    pub fn render(&self) -> (r: String)
        ensures
            r@ == render_reply(self.model()),
        decreases self,
    {
        match self {
            Resp::StringLine(t) => String::from_str("+ ").concat(t.as_str()),
            Resp::Error(t) => String::from_str("- ").concat(t.as_str()),
            Resp::Int(n) => {
                let mut r = String::from_str(": ");
                push_ascii(&mut r, crate::decimal::i64_text(*n).as_slice());
                r
            },
            Resp::Batch(Some(t)) => String::from_str("$ ").concat(t.as_str()),
            Resp::Batch(None) => String::from_str("$-1"),
            Resp::MultiBatch(Some(items)) => {
                let ghost ms = Seq::new(items@.len(), |i: int| items@[i].model());
                assert(self.model() == Reply::Array(Some(ms))) by {
                    if let Reply::Array(Some(m)) = self.model() {
                        assert(m =~= ms);
                    }
                }
                let mut r = String::from_str("* ");
                push_ascii(&mut r, crate::decimal::u64_text(items.len() as u64).as_slice());
                r.append("\r\n");
                let t = render_list(items);
                r.append(t.as_str());
                r
            },
            Resp::MultiBatch(None) => String::from_str("*-1"),
            Resp::BadReply(m) => String::from_str("parse reply failed: ").concat(m.as_str()),
        }
    }
}

/// The display texts of the items, joined by CRLF.
fn render_list(items: &Vec<Resp>) -> (r: String)
    ensures
        r@ == render_items(Seq::new(items@.len(), |i: int| items@[i].model())),
    decreases items,
{
    let ghost ms = Seq::new(items@.len(), |i: int| items@[i].model());
    let mut r = String::new();
    let mut i: usize = 0;
    while i < items.len()
        invariant
            0 <= i <= items@.len(),
            ms == Seq::new(items@.len(), |k: int| items@[k].model()),
            r@ == render_items(ms.subrange(0, i as int)),
        decreases items@.len() - i,
    {
        if i > 0 {
            r.append("\r\n");
        }
        proof {
            assert(decreases_to!(items => items[i as int]));
        }
        let t = items[i].render();
        r.append(t.as_str());
        assert(ms.subrange(0, i + 1).drop_last() =~= ms.subrange(0, i as int));
        assert(r@ =~= render_items(ms.subrange(0, i + 1)));
        i += 1;
    }
    assert(ms.subrange(0, ms.len() as int) =~= ms);
    r
}

} // verus!
