//! The request parser: from the bytes of one buffer read to a `Request`.

use vstd::prelude::*;
use vstd::utf8::{valid_utf8, decode_utf8};
use crate::http::{Header, Request, RequestModel, HeadersModel, headers_view};
use crate::text::{chars_of, string_of};

verus! {

/// Why a buffer does not hold a request.
#[derive(Debug, Clone, Copy, PartialEq, Eq)]
pub enum ParseError {
    /// The bytes are not valid UTF-8.
    InvalidEncoding,
    /// The first line holds fewer than two whitespace-separated tokens.
    MalformedRequestLine,
}

/// The number of characters from position `i` up to the first `c`, or up to
/// the end of `s` when no `c` follows.
pub open spec fn scan_len(s: Seq<char>, i: nat, c: char) -> nat
    decreases s.len() - i,
{
    if i < s.len() && s[i as int] != c {
        1 + scan_len(s, i + 1, c)
    } else {
        0
    }
}

/// A line ended by a newline loses one carriage return before it.
pub open spec fn strip_cr(line: Seq<char>) -> Seq<char> {
    if line.len() > 0 && line.last() == '\r' {
        line.drop_last()
    } else {
        line
    }
}

/// The lines of `s` from position `i`: split at each `\n`, a `\r` just before
/// a `\n` dropped, and no empty line after a final `\n`.
pub open spec fn lines_from(s: Seq<char>, i: nat) -> Seq<Seq<char>>
    decreases s.len() - i,
{
    if i >= s.len() {
        Seq::empty()
    } else {
        let e = i + scan_len(s, i, '\n');
        if e < s.len() {
            seq![strip_cr(s.subrange(i as int, e as int))] + lines_from(s, (e + 1) as nat)
        } else {
            seq![s.subrange(i as int, s.len() as int)]
        }
    }
}

/// The lines of a text.
pub open spec fn text_lines(s: Seq<char>) -> Seq<Seq<char>> {
    lines_from(s, 0)
}

/// Space, tab, line feed, form feed and carriage return.
pub open spec fn is_ascii_whitespace(c: char) -> bool {
    c == ' ' || c == '\t' || c == '\n' || c == '\x0C' || c == '\r'
}

/// The first position at or after `i` that holds no ASCII whitespace.
pub open spec fn skip_whitespace(s: Seq<char>, i: nat) -> nat
    decreases s.len() - i,
{
    if i < s.len() && is_ascii_whitespace(s[i as int]) {
        skip_whitespace(s, i + 1)
    } else {
        i
    }
}

/// The first position at or after `i` that holds ASCII whitespace, or the end.
pub open spec fn skip_token(s: Seq<char>, i: nat) -> nat
    decreases s.len() - i,
{
    if i < s.len() && !is_ascii_whitespace(s[i as int]) {
        skip_token(s, i + 1)
    } else {
        i
    }
}

/// The first two whitespace-separated tokens of a request line, if it has two.
pub open spec fn request_line(line: Seq<char>) -> Option<(Seq<char>, Seq<char>)> {
    let a = skip_whitespace(line, 0);
    let b = skip_token(line, a);
    let c = skip_whitespace(line, b);
    let d = skip_token(line, c);
    if a < line.len() && c < line.len() {
        Some((line.subrange(a as int, b as int), line.subrange(c as int, d as int)))
    } else {
        None
    }
}

/// A line with a colon is a header: the text before the first colon is its
/// key, all after it its value.
pub open spec fn header_of_line(line: Seq<char>) -> Option<(Seq<char>, Seq<char>)> {
    let k = scan_len(line, 0, ':');
    if k < line.len() {
        Some((line.subrange(0, k as int), line.subrange((k + 1) as int, line.len() as int)))
    } else {
        None
    }
}

/// The headers of the given lines, in order; lines without a colon are skipped.
pub open spec fn headers_of(lines: Seq<Seq<char>>) -> HeadersModel
    decreases lines.len(),
{
    if lines.len() == 0 {
        Seq::empty()
    } else {
        let rest = headers_of(lines.drop_first());
        match header_of_line(lines[0]) {
            Some(h) => seq![h] + rest,
            None => rest,
        }
    }
}

/// The request that a text holds: method and path from the first line, headers
/// from the others.
pub open spec fn parse_text(text: Seq<char>) -> Result<RequestModel, ParseError> {
    let lines = text_lines(text);
    if lines.len() == 0 {
        Err(ParseError::MalformedRequestLine)
    } else {
        match request_line(lines[0]) {
            Some((m, p)) => Ok((m, p, headers_of(lines.drop_first()))),
            None => Err(ParseError::MalformedRequestLine),
        }
    }
}

/// The request that a buffer of bytes holds.
pub open spec fn parse_bytes(b: Seq<u8>) -> Result<RequestModel, ParseError> {
    if valid_utf8(b) {
        parse_text(decode_utf8(b))
    } else {
        Err(ParseError::InvalidEncoding)
    }
}

/// Relies on `std::str::from_utf8`: it accepts exactly the valid UTF-8 byte
/// sequences, and then yields the characters they encode.
#[verifier::external_body]
fn decode_text(b: &[u8]) -> (r: Option<String>)
    ensures
        r.is_some() == valid_utf8(b@),
        r matches Some(t) ==> t@ == decode_utf8(b@),
{
    std::str::from_utf8(b).ok().map(|t| t.to_string())
}

fn scan(s: &Vec<char>, i: usize, c: char) -> (j: usize)
    requires
        i <= s@.len(),
    ensures
        j == i + scan_len(s@, i as nat, c),
        j <= s@.len(),
{
    let mut j = i;
    while j < s.len() && s[j] != c
        invariant
            i <= j <= s@.len(),
            scan_len(s@, i as nat, c) == (j - i) + scan_len(s@, j as nat, c),
        decreases s@.len() - j,
    {
        j = j + 1;
    }
    j
}

fn skip_ws(s: &Vec<char>, i: usize) -> (j: usize)
    requires
        i <= s@.len(),
    ensures
        j == skip_whitespace(s@, i as nat),
        i <= j <= s@.len(),
{
    let mut j = i;
    while j < s.len() && (s[j] == ' ' || s[j] == '\t' || s[j] == '\n' || s[j] == '\x0C' || s[j]
        == '\r')
        invariant
            i <= j <= s@.len(),
            skip_whitespace(s@, i as nat) == skip_whitespace(s@, j as nat),
        decreases s@.len() - j,
    {
        j = j + 1;
    }
    j
}

fn skip_tok(s: &Vec<char>, i: usize) -> (j: usize)
    requires
        i <= s@.len(),
    ensures
        j == skip_token(s@, i as nat),
        i <= j <= s@.len(),
{
    let mut j = i;
    while j < s.len() && !(s[j] == ' ' || s[j] == '\t' || s[j] == '\n' || s[j] == '\x0C' || s[j]
        == '\r')
        invariant
            i <= j <= s@.len(),
            skip_token(s@, i as nat) == skip_token(s@, j as nat),
        decreases s@.len() - j,
    {
        j = j + 1;
    }
    j
}

fn copy_range(s: &Vec<char>, from: usize, to: usize) -> (r: Vec<char>)
    requires
        from <= to <= s@.len(),
    ensures
        r@ == s@.subrange(from as int, to as int),
{
    let mut r: Vec<char> = Vec::new();
    let mut i = from;
    while i < to
        invariant
            from <= i <= to <= s@.len(),
            r@ == s@.subrange(from as int, i as int),
        decreases to - i,
    {
        r.push(s[i]);
        i = i + 1;
        assert(r@ =~= s@.subrange(from as int, i as int));
    }
    r
}

/// The line of `s` that starts at `i` and whose newline (or the end) is at
/// `e`, as `lines_from` cuts it.
fn line_at(s: &Vec<char>, i: usize, e: usize) -> (r: Vec<char>)
    requires
        i <= e <= s@.len(),
    ensures
        e < s@.len() ==> r@ == strip_cr(s@.subrange(i as int, e as int)),
        e == s@.len() ==> r@ == s@.subrange(i as int, e as int),
{
    if e < s.len() && e > i && s[e - 1] == '\r' {
        let r = copy_range(s, i, e - 1);
        assert(s@.subrange(i as int, e as int).drop_last() =~= r@);
        r
    } else {
        copy_range(s, i, e)
    }
}

proof fn lemma_scan_stops(s: Seq<char>, i: nat, c: char, j: nat)
    requires
        i <= j <= s.len(),
        forall|k: int| i <= k < j ==> s[k] != c,
        j == s.len() || s[j as int] == c,
    ensures
        scan_len(s, i, c) == j - i,
    decreases j - i,
{
    if i < j {
        lemma_scan_stops(s, i + 1, c, j);
    }
}

proof fn lemma_skip_token_stops(s: Seq<char>, i: nat, j: nat)
    requires
        i <= j <= s.len(),
        forall|k: int| i <= k < j ==> !is_ascii_whitespace(#[trigger] s[k]),
        j == s.len() || is_ascii_whitespace(s[j as int]),
    ensures
        skip_token(s, i) == j,
    decreases j - i,
{
    if i < j {
        lemma_skip_token_stops(s, i + 1, j);
    }
}

proof fn lemma_skip_whitespace_stops(s: Seq<char>, i: nat, j: nat)
    requires
        i <= j <= s.len(),
        forall|k: int| i <= k < j ==> is_ascii_whitespace(#[trigger] s[k]),
        j == s.len() || !is_ascii_whitespace(s[j as int]),
    ensures
        skip_whitespace(s, i) == j,
    decreases j - i,
{
    if i < j {
        lemma_skip_whitespace_stops(s, i + 1, j);
    }
}

/// The first line of a text that holds a newline is the text before it, less
/// a carriage return just before the newline.
proof fn lemma_first_line(line: Seq<char>, rest: Seq<char>)
    requires
        forall|k: int| 0 <= k < line.len() ==> line[k] != '\n',
    ensures
        text_lines(line + seq!['\n'] + rest).len() > 0,
        text_lines(line + seq!['\n'] + rest)[0] == strip_cr(line),
{
    let text = line + seq!['\n'] + rest;
    lemma_scan_stops(text, 0, '\n', line.len());
    assert(text.subrange(0, line.len() as int) =~= line);
}

/// A request line of a method token, one space, a path token, and then
/// nothing or whitespace first, yields that method and that path, whatever
/// follows the line.
pub proof fn lemma_request_line_tokens(
    method: Seq<char>,
    path: Seq<char>,
    tail: Seq<char>,
    rest: Seq<char>,
)
    requires
        method.len() > 0,
        path.len() > 0,
        forall|k: int| 0 <= k < method.len() ==> !is_ascii_whitespace(#[trigger] method[k]),
        forall|k: int| 0 <= k < path.len() ==> !is_ascii_whitespace(#[trigger] path[k]),
        forall|k: int| 0 <= k < tail.len() ==> tail[k] != '\n',
        tail.len() == 0 || is_ascii_whitespace(tail[0]),
    ensures
        parse_text(method + seq![' '] + path + tail + seq!['\n'] + rest) matches Ok(req) && req.0
            == method && req.1 == path,
{
    let raw = method + seq![' '] + path + tail;
    assert forall|k: int| 0 <= k < raw.len() implies raw[k] != '\n' by {
        if k < method.len() {
            assert(raw[k] == method[k]);
        } else if k == method.len() {
        } else if k < method.len() + 1 + path.len() {
            assert(raw[k] == path[k - method.len() - 1]);
        } else {
            assert(raw[k] == tail[k - method.len() - 1 - path.len()]);
        }
    }
    lemma_first_line(raw, rest);
    assert(raw + seq!['\n'] + rest =~= method + seq![' '] + path + tail + seq!['\n'] + rest);
    let line = strip_cr(raw);
    let m = method.len();
    let pe = m + 1 + path.len();
    assert(line.len() >= pe);
    assert forall|k: int| 0 <= k < line.len() implies line[k] == raw[k] by {}
    assert forall|k: int| 0 <= k < m implies !is_ascii_whitespace(#[trigger] line[k]) by {
        assert(line[k] == method[k]);
    }
    assert(line.len() == m || is_ascii_whitespace(line[m as int]));
    lemma_skip_whitespace_stops(line, 0, 0);
    lemma_skip_token_stops(line, 0, m);
    assert(line[m as int] == ' ');
    assert(line[(m + 1) as int] == path[0]);
    lemma_skip_whitespace_stops(line, m, m + 1);
    assert forall|k: int| m + 1 <= k < pe implies !is_ascii_whitespace(#[trigger] line[k]) by {
        assert(line[k] == path[k - m - 1]);
    }
    if line.len() > pe {
        assert(line[pe as int] == tail[0]);
    }
    lemma_skip_token_stops(line, m + 1, pe);
    assert(line.subrange(0, m as int) =~= method);
    assert(line.subrange((m + 1) as int, pe as int) =~= path);
}

/// A header line is split at its first colon only: the key is all before it,
/// and the value all after it, later colons included.
pub proof fn lemma_header_splits_at_first_colon(key: Seq<char>, value: Seq<char>)
    requires
        forall|k: int| 0 <= k < key.len() ==> key[k] != ':',
    ensures
        header_of_line(key + seq![':'] + value) == Some((key, value)),
{
    let line = key + seq![':'] + value;
    lemma_scan_stops(line, 0, ':', key.len());
    assert(line.subrange(0, key.len() as int) =~= key);
    assert(line.subrange((key.len() + 1) as int, line.len() as int) =~= value);
}

/// A first line with fewer than two tokens, that is optional whitespace, at
/// most one token and optional whitespace, makes the request malformed.
pub proof fn lemma_short_request_line_fails(
    lead: Seq<char>,
    token: Seq<char>,
    trail: Seq<char>,
    rest: Seq<char>,
)
    requires
        forall|k: int| 0 <= k < lead.len() ==> is_ascii_whitespace(#[trigger] lead[k]) && lead[k]
            != '\n',
        forall|k: int| 0 <= k < token.len() ==> !is_ascii_whitespace(#[trigger] token[k]),
        forall|k: int| 0 <= k < trail.len() ==> is_ascii_whitespace(#[trigger] trail[k]) && trail[k]
            != '\n',
    ensures
        parse_text(lead + token + trail + seq!['\n'] + rest) == Err::<RequestModel, ParseError>(
            ParseError::MalformedRequestLine,
        ),
{
    let raw = lead + token + trail;
    let w = lead.len();
    let t = token.len();
    assert forall|k: int| 0 <= k < raw.len() implies raw[k] != '\n' by {
        if k < w {
            assert(raw[k] == lead[k]);
        } else if k < w + t {
            assert(raw[k] == token[k - w]);
        } else {
            assert(raw[k] == trail[k - w - t]);
        }
    }
    lemma_first_line(raw, rest);
    assert(raw + seq!['\n'] + rest =~= lead + token + trail + seq!['\n'] + rest);
    let line = strip_cr(raw);
    assert forall|k: int| 0 <= k < line.len() implies line[k] == raw[k] by {}
    assert forall|k: int| 0 <= k < w && k < line.len() implies is_ascii_whitespace(
        #[trigger] line[k],
    ) by {
        assert(raw[k] == lead[k]);
    }
    if t == 0 {
        assert forall|k: int| 0 <= k < line.len() implies is_ascii_whitespace(#[trigger] line[k]) by {
            if k < w {
                assert(raw[k] == lead[k]);
            } else {
                assert(raw[k] == trail[k - w]);
            }
        }
        lemma_skip_whitespace_stops(line, 0, line.len());
    } else {
        if trail.len() == 0 {
            assert(raw.last() == token[t - 1]);
            assert(line == raw);
        }
        assert(line.len() >= w + t);
        assert(line[w as int] == token[0]);
        lemma_skip_whitespace_stops(line, 0, w);
        assert forall|k: int| w <= k < w + t implies !is_ascii_whitespace(#[trigger] line[k]) by {
            assert(line[k] == token[k - w]);
        }
        if line.len() > w + t {
            assert(line[(w + t) as int] == trail[0]);
        }
        lemma_skip_token_stops(line, w, w + t);
        assert forall|k: int| w + t <= k < line.len() implies is_ascii_whitespace(
            #[trigger] line[k],
        ) by {
            assert(line[k] == trail[k - w - t]);
        }
        lemma_skip_whitespace_stops(line, w + t, line.len());
    }
}

proof fn lemma_headers_of_cons(line: Seq<char>, rest: Seq<Seq<char>>)
    ensures
        headers_of(seq![line] + rest) == match header_of_line(line) {
            Some(h) => seq![h] + headers_of(rest),
            None => headers_of(rest),
        },
{
    let ls = seq![line] + rest;
    assert(ls.drop_first() =~= rest);
    assert(ls[0] == line);
}

/// Parses the text of a request.
pub fn parse_request(text: &str) -> (r: Result<Request, ParseError>)
    ensures
        match r {
            Ok(req) => parse_text(text@) == Ok::<RequestModel, ParseError>(req@),
            Err(e) => parse_text(text@) == Err::<RequestModel, ParseError>(e),
        },
{
    let s = chars_of(text);
    let n = s.len();
    if n == 0 {
        return Err(ParseError::MalformedRequestLine);
    }
    let e0 = scan(&s, 0, '\n');
    let first = line_at(&s, 0, e0);
    let mut i: usize = if e0 < n {
        e0 + 1
    } else {
        n
    };
    proof {
        let lines = text_lines(s@);
        assert(lines[0] == first@);
        assert(lines.drop_first() =~= lines_from(s@, i as nat));
    }
    let a = skip_ws(&first, 0);
    let b = skip_tok(&first, a);
    let c = skip_ws(&first, b);
    let d = skip_tok(&first, c);
    if a >= first.len() || c >= first.len() {
        return Err(ParseError::MalformedRequestLine);
    }
    let method = string_of(&first, a, b);
    let path = string_of(&first, c, d);
    let mut headers: Vec<Header> = Vec::new();
    while i < n
        invariant
            n == s@.len(),
            i <= n,
            headers_of(text_lines(s@).drop_first()) == headers_view(headers@) + headers_of(
                lines_from(s@, i as nat),
            ),
        decreases n - i,
    {
        let e = scan(&s, i, '\n');
        let line = line_at(&s, i, e);
        let next: usize = if e < n {
            e + 1
        } else {
            n
        };
        proof {
            assert(lines_from(s@, i as nat) =~= seq![line@] + lines_from(s@, next as nat));
            lemma_headers_of_cons(line@, lines_from(s@, next as nat));
        }
        let k = scan(&line, 0, ':');
        if k < line.len() {
            let len = line.len();
            let h = Header { key: string_of(&line, 0, k), value: string_of(&line, k + 1, len) };
            let ghost old_headers = headers@;
            headers.push(h);
            proof {
                assert(headers_view(headers@) =~= headers_view(old_headers).push(h@));
                assert(headers_view(headers@) + headers_of(lines_from(s@, next as nat)) =~=
                    headers_view(old_headers) + (seq![h@] + headers_of(lines_from(s@, next as nat))));
            }
        }
        i = next;
    }
    assert(headers_view(headers@) + headers_of(lines_from(s@, i as nat)) =~= headers_view(headers@));
    Ok(Request { method, path, headers })
}

/// Parses one fixed-size read buffer: the request bytes, then zero padding.
pub fn parse_request_from_buffer(buffer: [u8; 1024]) -> (r: Result<Request, ParseError>)
    ensures
        match r {
            Ok(req) => parse_bytes(buffer@) == Ok::<RequestModel, ParseError>(req@),
            Err(e) => parse_bytes(buffer@) == Err::<RequestModel, ParseError>(e),
        },
{
    match decode_text(buffer.as_slice()) {
        None => Err(ParseError::InvalidEncoding),
        Some(t) => parse_request(t.as_str()),
    }
}

} // verus!
