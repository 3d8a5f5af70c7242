use vstd::prelude::*;

use vstd::string::StringSliceAdditionalSpecFns;
use vstd::utf8::valid_utf8;

use crate::buffer::{
    buffer_append, buffer_contents, buffer_len, buffer_skip, buffer_take_front, buffer_with_capacity, bytes_of,
    crlf_at, crlf_from, decode_text, find_crlf, parse_usize,
};
use crate::request::{method_is, Method, Request, StartLine};
use crate::text::{
    copy_range, decimal_usize, index_of, index_of_from, lower, lower_bytes, skip_space,
    skip_space_from, text_is, token_end, token_end_from, trim, trim_bytes,
};

verus! {

/// The most bytes that may wait without a CRLF before a line is refused.
pub const MAX_LINE_LEN: usize = 8124;

/// What the bytes at a position hold, seen as one line.
pub enum LineModel {
    /// The line's bytes, and the position after it and its CRLF.
    Line(Seq<u8>, int),
    /// No CRLF yet, and the source may still send one.
    NeedMore,
    /// The source ended and nothing is left.
    End,
    /// More than `MAX_LINE_LEN` bytes wait without a CRLF.
    TooLong,
}

/// The line that starts at `pos` of the buffered bytes `s`; `eof` says that the
/// source has ended. A line is ended by the first CRLF; once the source has
/// ended, what is left without one is a last line. When no CRLF is buffered and
/// more than `MAX_LINE_LEN` bytes wait, the line is refused, so a peer that
/// never sends a CRLF cannot make the buffer grow without bound.
pub open spec fn scan_line(s: Seq<u8>, pos: int, eof: bool) -> LineModel {
    let j = crlf_from(s, pos);
    if j < s.len() {
        LineModel::Line(s.subrange(pos, j), j + 2)
    } else if s.len() - pos > MAX_LINE_LEN {
        LineModel::TooLong
    } else if !eof {
        LineModel::NeedMore
    } else if s.len() == pos {
        LineModel::End
    } else {
        LineModel::Line(s.subrange(pos, s.len() as int), s.len() as int)
    }
}

/// A line as read from the buffered bytes.
#[derive(Debug)]
pub enum LineScan {
    /// The line's bytes, and how many buffered bytes it used, its CRLF included.
    Line(Vec<u8>, usize),
    NeedMore,
    End,
    TooLong,
}

impl LineScan {
    /// The line that this result stands for, read at `pos`.
    pub open spec fn model(&self, pos: int) -> LineModel {
        match self {
            LineScan::Line(l, n) => LineModel::Line(l@, pos + *n as int),
            LineScan::NeedMore => LineModel::NeedMore,
            LineScan::End => LineModel::End,
            LineScan::TooLong => LineModel::TooLong,
        }
    }
}

pub proof fn lemma_crlf_from_bounds(s: Seq<u8>, i: int)
    requires
        0 <= i <= s.len(),
    ensures
        i <= crlf_from(s, i) <= s.len(),
        crlf_from(s, i) < s.len() ==> crlf_at(s, crlf_from(s, i)),
    decreases s.len() - i,
{
    if i < s.len() && !crlf_at(s, i) {
        lemma_crlf_from_bounds(s, i + 1);
    }
}

proof fn lemma_crlf_from_shift(s: Seq<u8>, pos: int, k: int)
    requires
        0 <= pos <= s.len(),
        0 <= k <= s.len() - pos,
    ensures
        crlf_from(s.subrange(pos, s.len() as int), k) + pos == crlf_from(s, pos + k),
    decreases s.len() - pos - k,
{
    let t = s.subrange(pos, s.len() as int);
    assert(crlf_at(t, k) == crlf_at(s, pos + k));
    if k < t.len() && !crlf_at(t, k) {
        lemma_crlf_from_shift(s, pos, k + 1);
    }
}

/// Where a line that starts at `pos` ends: it always moves forward.
pub proof fn lemma_scan_line_advances(s: Seq<u8>, pos: int, eof: bool)
    requires
        0 <= pos <= s.len(),
    ensures
        match scan_line(s, pos, eof) {
            LineModel::Line(l, next) => pos < next <= s.len(),
            _ => true,
        },
{
    lemma_crlf_from_bounds(s, pos);
}

/// Reads the line that starts at `pos` of `s`, without copying what follows it.
pub fn line_at(s: &[u8], pos: usize, eof: bool) -> (r: LineScan)
    requires
        pos <= s@.len(),
    ensures
        r.model(pos as int) == scan_line(s@, pos as int, eof),
{
    let rest = &s[pos..s.len()];
    proof {
        lemma_crlf_from_shift(s@, pos as int, 0);
        lemma_crlf_from_bounds(s@, pos as int);
    }
    match find_crlf(rest) {
        Some(i) => {
            let line = crate::text::copy_range(s, pos, pos + i);
            LineScan::Line(line, i + 2)
        },
        None => {
            let left = s.len() - pos;
            if left > MAX_LINE_LEN {
                LineScan::TooLong
            } else if !eof {
                LineScan::NeedMore
            } else if left == 0 {
                LineScan::End
            } else {
                let line = crate::text::copy_range(s, pos, s.len());
                LineScan::Line(line, left)
            }
        },
    }
}

/// The three tokens of a start line.
#[derive(Debug, Clone, Copy, PartialEq, Eq, Structural)]
pub enum StartToken {
    Method,
    Path,
    Version,
}

/// Why a request could not be parsed.
#[derive(Debug, Clone, Copy, PartialEq, Eq, Structural)]
pub enum ParseError {
    /// The start line is not valid UTF-8.
    MalformedStartLine,
    /// The start line lacks the named token.
    MissingStartLineToken(StartToken),
    /// More than `MAX_LINE_LEN` bytes waited without a CRLF.
    LineTooLong,
    /// The `content-length` value is not a decimal number that fits a `usize`.
    InvalidContentLength,
    /// The source ended inside a request.
    UnexpectedEndOfStream,
    /// The source ended cleanly before a new request's first byte.
    ConnectionAborted,
    /// A header name or value is not valid UTF-8.
    InvalidEncoding,
}

/// The whitespace-separated tokens of a start line: method, path, version.
/// Tokens after the third are ignored.
pub open spec fn start_tokens(l: Seq<u8>) -> Result<(Seq<u8>, Seq<u8>, Seq<u8>), ParseError> {
    let a0 = skip_space(l, 0);
    let e0 = token_end(l, a0);
    let a1 = skip_space(l, e0);
    let e1 = token_end(l, a1);
    let a2 = skip_space(l, e1);
    let e2 = token_end(l, a2);
    if a0 >= l.len() {
        Err(ParseError::MissingStartLineToken(StartToken::Method))
    } else if a1 >= l.len() {
        Err(ParseError::MissingStartLineToken(StartToken::Path))
    } else if a2 >= l.len() {
        Err(ParseError::MissingStartLineToken(StartToken::Version))
    } else {
        Ok((l.subrange(a0, e0), l.subrange(a1, e1), l.subrange(a2, e2)))
    }
}

/// The tokens of a start line, each of which must be valid UTF-8.
pub open spec fn start_line_model(l: Seq<u8>) -> Result<(Seq<u8>, Seq<u8>, Seq<u8>), ParseError> {
    match start_tokens(l) {
        Err(e) => Err(e),
        Ok(t) => if valid_utf8(t.0) && valid_utf8(t.1) && valid_utf8(t.2) {
            Ok(t)
        } else {
            Err(ParseError::MalformedStartLine)
        },
    }
}

/// `sl` holds the start-line tokens `t`.
pub open spec fn start_line_is(sl: StartLine, t: (Seq<u8>, Seq<u8>, Seq<u8>)) -> bool {
    method_is(sl.method, t.0) && text_is(sl.path, t.1) && text_is(sl.version, t.2)
}

/// The header that a line gives: the text before the first `:`, lowercased and
/// trimmed, and the text after it, trimmed; a line without `:` gives none.
pub open spec fn header_of(l: Seq<u8>) -> Option<(Seq<u8>, Seq<u8>)> {
    let c = index_of(l, 58, 0);
    if c < l.len() {
        Some((trim(lower(l.subrange(0, c))), trim(l.subrange(c + 1, l.len() as int))))
    } else {
        None
    }
}

fn decode_token(b: Vec<u8>) -> (r: Result<String, ParseError>)
    ensures
        match r {
            Ok(s) => text_is(s, b@),
            Err(e) => !valid_utf8(b@) && e == ParseError::MalformedStartLine,
        },
{
    match decode_text(b) {
        Some(s) => Ok(s),
        None => Err(ParseError::MalformedStartLine),
    }
}

/// Splits a start line into its method, path and version.
pub fn parse_start_line(line: &[u8]) -> (r: Result<StartLine, ParseError>)
    ensures
        match r {
            Ok(sl) => match start_line_model(line@) {
                Ok(t) => start_line_is(sl, t),
                Err(_) => false,
            },
            Err(e) => start_line_model(line@) == Err::<(Seq<u8>, Seq<u8>, Seq<u8>), ParseError>(e),
        },
{
    let ghost l = line@;
    let a0 = skip_space_from(line, 0);
    let e0 = token_end_from(line, a0);
    let a1 = skip_space_from(line, e0);
    let e1 = token_end_from(line, a1);
    let a2 = skip_space_from(line, e1);
    let e2 = token_end_from(line, a2);
    if a0 >= line.len() {
        return Err(ParseError::MissingStartLineToken(StartToken::Method));
    }
    if a1 >= line.len() {
        return Err(ParseError::MissingStartLineToken(StartToken::Path));
    }
    if a2 >= line.len() {
        return Err(ParseError::MissingStartLineToken(StartToken::Version));
    }
    let m = copy_range(line, a0, e0);
    let p = copy_range(line, a1, e1);
    let v = copy_range(line, a2, e2);
    let ghost (mb, pb, vb) = (m@, p@, v@);
    let ms = decode_token(m)?;
    let ps = decode_token(p)?;
    let vs = decode_token(v)?;
    proof {
        vstd::utf8::decode_utf8_encode_utf8(mb);
    }
    let method = Method::from_token(ms.as_str());
    Ok(StartLine { method, path: ps, version: vs })
}

/// Splits a header line at its first `:` into a lowercased, trimmed name and a
/// trimmed value; a line without `:` gives `None`.
pub fn parse_line_to_kv(line: &[u8]) -> (r: Option<(Vec<u8>, Vec<u8>)>)
    ensures
        match r {
            Some(kv) => header_of(line@) == Some((kv.0@, kv.1@)),
            None => header_of(line@) is None,
        },
{
    let c = index_of_from(line, 58, 0);
    if c >= line.len() {
        return None;
    }
    let name = copy_range(line, 0, c);
    let value = copy_range(line, c + 1, line.len());
    let lowered = lower_bytes(name.as_slice());
    let k = trim_bytes(lowered.as_slice());
    let v = trim_bytes(value.as_slice());
    Some((k, v))
}

/// The bytes `content-length`.
pub open spec fn content_length_key() -> Seq<u8> {
    seq![99u8, 111, 110, 116, 101, 110, 116, 45, 108, 101, 110, 103, 116, 104]
}

/// The first index at or after `i` of a header named `k` (or the length).
pub open spec fn key_index(hs: Seq<(Seq<u8>, Seq<u8>)>, k: Seq<u8>, i: int) -> int
    decreases hs.len() - i,
{
    if 0 <= i < hs.len() && hs[i].0 != k {
        key_index(hs, k, i + 1)
    } else {
        i
    }
}

/// The value of the header named `k`.
pub open spec fn lookup(hs: Seq<(Seq<u8>, Seq<u8>)>, k: Seq<u8>) -> Option<Seq<u8>> {
    let i = key_index(hs, k, 0);
    if 0 <= i < hs.len() {
        Some(hs[i].1)
    } else {
        None
    }
}

/// Headers after `(k, v)` is recorded: an earlier value of `k` is replaced.
pub open spec fn insert_header(hs: Seq<(Seq<u8>, Seq<u8>)>, k: Seq<u8>, v: Seq<u8>) -> Seq<(Seq<u8>, Seq<u8>)> {
    let i = key_index(hs, k, 0);
    if 0 <= i < hs.len() {
        hs.update(i, (k, v))
    } else {
        hs.push((k, v))
    }
}

/// Headers after the line `l` is read: a line without `:` is skipped.
pub open spec fn add_header_line(hs: Seq<(Seq<u8>, Seq<u8>)>, l: Seq<u8>) -> Seq<(Seq<u8>, Seq<u8>)> {
    match header_of(l) {
        Some(kv) => insert_header(hs, kv.0, kv.1),
        None => hs,
    }
}

/// How the header block that starts at `pos` ends.
pub enum HeadModel {
    NeedMore,
    Failed(ParseError),
    /// The headers, and the position after the empty line that ends the block.
    Done(Seq<(Seq<u8>, Seq<u8>)>, int),
}

/// The header block at `pos`, with `acc` the headers read before it: lines up
/// to the first empty one. A source that ends first is an error.
pub open spec fn header_block(s: Seq<u8>, pos: int, eof: bool, acc: Seq<(Seq<u8>, Seq<u8>)>) -> HeadModel
    decreases s.len() - pos,
{
    match scan_line(s, pos, eof) {
        LineModel::NeedMore => HeadModel::NeedMore,
        LineModel::End => HeadModel::Failed(ParseError::UnexpectedEndOfStream),
        LineModel::TooLong => HeadModel::Failed(ParseError::LineTooLong),
        LineModel::Line(l, next) => if l.len() == 0 {
            HeadModel::Done(acc, next)
        } else if pos < next <= s.len() {
            header_block(s, next, eof, add_header_line(acc, l))
        } else {
            HeadModel::NeedMore
        },
    }
}

pub open spec fn pairs_view(v: Seq<(Vec<u8>, Vec<u8>)>) -> Seq<(Seq<u8>, Seq<u8>)> {
    v.map_values(|p: (Vec<u8>, Vec<u8>)| (p.0@, p.1@))
}

/// Index of the header named `k`, or the number of headers.
fn find_key(hs: &Vec<(Vec<u8>, Vec<u8>)>, k: &Vec<u8>) -> (r: usize)
    ensures
        r as int == key_index(pairs_view(hs@), k@, 0),
        r <= hs@.len(),
{
    let ghost hv = pairs_view(hs@);
    let mut i: usize = 0;
    while i < hs.len() && !crate::text::bytes_equal(hs[i].0.as_slice(), k.as_slice())
        invariant
            i <= hs@.len(),
            hv == pairs_view(hs@),
            key_index(hv, k@, i as int) == key_index(hv, k@, 0),
        decreases hs@.len() - i,
    {
        assert(hv[i as int].0 == hs@[i as int].0@);
        i = i + 1;
    }
    proof {
        if i < hs.len() {
            assert(hv[i as int].0 == hs@[i as int].0@);
        }
    }
    i
}

fn insert_pair(hs: &mut Vec<(Vec<u8>, Vec<u8>)>, k: Vec<u8>, v: Vec<u8>)
    ensures
        pairs_view(final(hs)@) == insert_header(pairs_view(old(hs)@), k@, v@),
{
    let i = find_key(hs, &k);
    let ghost kv = (k@, v@);
    if i < hs.len() {
        hs.set(i, (k, v));
        assert(pairs_view(hs@) == pairs_view(old(hs)@).update(i as int, kv));
    } else {
        hs.push((k, v));
        assert(pairs_view(hs@) == pairs_view(old(hs)@).push(kv));
    }
}

/// Reads the header block that starts at `pos`.
fn read_header_block(s: &[u8], pos: usize, eof: bool) -> (r: Result<Option<(Vec<(Vec<u8>, Vec<u8>)>, usize)>, ParseError>)
    requires
        pos <= s@.len(),
    ensures
        match r {
            Ok(Some(d)) => header_block(s@, pos as int, eof, seq![]) == HeadModel::Done(pairs_view(d.0@), d.1 as int) && d.1 <= s@.len(),
            Ok(None) => header_block(s@, pos as int, eof, seq![]) == HeadModel::NeedMore,
            Err(e) => header_block(s@, pos as int, eof, seq![]) == HeadModel::Failed(e),
        },
{
    let mut hs: Vec<(Vec<u8>, Vec<u8>)> = Vec::new();
    let mut p = pos;
    let total = s.len();
    assert(pairs_view(hs@) == Seq::<(Seq<u8>, Seq<u8>)>::empty());
    loop
        invariant
            total == s@.len(),
            pos <= p <= s@.len(),
            header_block(s@, p as int, eof, pairs_view(hs@)) == header_block(s@, pos as int, eof, seq![]),
        decreases s@.len() - p,
    {
        proof {
            lemma_scan_line_advances(s@, p as int, eof);
        }
        match line_at(s, p, eof) {
            LineScan::NeedMore => return Ok(None),
            LineScan::End => return Err(ParseError::UnexpectedEndOfStream),
            LineScan::TooLong => return Err(ParseError::LineTooLong),
            LineScan::Line(l, n) => {
                assert(scan_line(s@, p as int, eof) == LineModel::Line(l@, p + n));
                assert(p + n <= total);
                if l.len() == 0 {
                    return Ok(Some((hs, p + n)));
                }
                if let Some(kv) = parse_line_to_kv(l.as_slice()) {
                    insert_pair(&mut hs, kv.0, kv.1);
                }
                p = p + n;
            },
        }
    }
}

/// A request as the bytes give it, before its text is decoded.
pub struct RawRequest {
    pub method: Seq<u8>,
    pub path: Seq<u8>,
    pub version: Seq<u8>,
    pub headers: Seq<(Seq<u8>, Seq<u8>)>,
    pub body: Option<Seq<u8>>,
}

/// What the buffered bytes hold, seen as one request.
pub enum ParseModel {
    NeedMore,
    Failed(ParseError),
    /// The request, and how many bytes it takes, its body included.
    Done(RawRequest, int),
}

/// Every header name and value is valid UTF-8.
pub open spec fn headers_valid(hs: Seq<(Seq<u8>, Seq<u8>)>) -> bool {
    forall|i: int| 0 <= i < hs.len() ==> #[trigger] pair_valid(hs[i])
}

/// A header's name and value are both valid UTF-8.
pub open spec fn pair_valid(p: (Seq<u8>, Seq<u8>)) -> bool {
    valid_utf8(p.0) && valid_utf8(p.1)
}

/// The request after its header block, which ends at `q`: its body is the
/// `content-length` bytes that follow, or absent when that header is.
pub open spec fn body_model(s: Seq<u8>, eof: bool, t: (Seq<u8>, Seq<u8>, Seq<u8>), hs: Seq<(Seq<u8>, Seq<u8>)>, q: int) -> ParseModel {
    let req = |body: Option<Seq<u8>>|
        RawRequest { method: t.0, path: t.1, version: t.2, headers: hs, body };
    if !headers_valid(hs) {
        ParseModel::Failed(ParseError::InvalidEncoding)
    } else {
        match lookup(hs, content_length_key()) {
            None => ParseModel::Done(req(None), q),
            Some(v) => match decimal_usize(v) {
                None => ParseModel::Failed(ParseError::InvalidContentLength),
                Some(n) => if q + n <= s.len() {
                    ParseModel::Done(req(Some(s.subrange(q, q + n))), q + n)
                } else if eof {
                    ParseModel::Failed(ParseError::UnexpectedEndOfStream)
                } else {
                    ParseModel::NeedMore
                },
            },
        }
    }
}

/// The request at the front of the buffered bytes `s`; `eof` says that the
/// source has ended. A source that ends before a request's first byte is
/// `ConnectionAborted`.
pub open spec fn parse_model(s: Seq<u8>, eof: bool) -> ParseModel {
    match scan_line(s, 0, eof) {
        LineModel::NeedMore => ParseModel::NeedMore,
        LineModel::End => ParseModel::Failed(ParseError::ConnectionAborted),
        LineModel::TooLong => ParseModel::Failed(ParseError::LineTooLong),
        LineModel::Line(l, p) => match start_line_model(l) {
            Err(e) => ParseModel::Failed(e),
            Ok(t) => match header_block(s, p, eof, seq![]) {
                HeadModel::NeedMore => ParseModel::NeedMore,
                HeadModel::Failed(e) => ParseModel::Failed(e),
                HeadModel::Done(hs, q) => body_model(s, eof, t, hs, q),
            },
        },
    }
}

/// `r` is the request `m`, its text decoded.
pub open spec fn request_is(r: Request, m: RawRequest) -> bool {
    &&& start_line_is(r.start_line, (m.method, m.path, m.version))
    &&& r.headers@.len() == m.headers.len()
    &&& forall|i: int|
        0 <= i < m.headers.len() ==> text_is(#[trigger] r.headers@[i].0, m.headers[i].0) && text_is(
            r.headers@[i].1,
            m.headers[i].1,
        )
    &&& match r.body {
        Some(b) => m.body == Some(b@),
        None => m.body is None,
    }
}

/// The outcome of one attempt to parse a request from buffered bytes.
#[derive(Debug)]
pub enum ParseStep {
    /// More bytes are needed before anything can be decided.
    Incomplete,
    /// A request, and how many buffered bytes it took.
    Complete(Request, usize),
    Failed(ParseError),
}

/// `r` is the outcome that `m` describes.
pub open spec fn step_is(r: ParseStep, m: ParseModel) -> bool {
    match r {
        ParseStep::Incomplete => m is NeedMore,
        ParseStep::Complete(req, n) => match m {
            ParseModel::Done(raw, k) => request_is(req, raw) && k == n,
            _ => false,
        },
        ParseStep::Failed(e) => m == ParseModel::Failed(e),
    }
}

fn decode_headers(hs: &Vec<(Vec<u8>, Vec<u8>)>) -> (r: Option<Vec<(String, String)>>)
    ensures
        match r {
            Some(t) => headers_valid(pairs_view(hs@)) && t@.len() == hs@.len() && forall|i: int|
                0 <= i < hs@.len() ==> text_is(#[trigger] t@[i].0, pairs_view(hs@)[i].0) && text_is(
                    t@[i].1,
                    pairs_view(hs@)[i].1,
                ),
            None => !headers_valid(pairs_view(hs@)),
        },
{
    let mut t: Vec<(String, String)> = Vec::new();
    let mut i: usize = 0;
    while i < hs.len()
        invariant
            i <= hs@.len(),
            t@.len() == i,
            forall|j: int|
                0 <= j < i ==> text_is(#[trigger] t@[j].0, hs@[j].0@) && text_is(t@[j].1, hs@[j].1@),
        decreases hs@.len() - i,
    {
        let k = copy_range(hs[i].0.as_slice(), 0, hs[i].0.len());
        let v = copy_range(hs[i].1.as_slice(), 0, hs[i].1.len());
        assert(k@ == hs@[i as int].0@);
        assert(v@ == hs@[i as int].1@);
        let (ks, vs) = match (decode_text(k), decode_text(v)) {
            (Some(a), Some(b)) => (a, b),
            _ => {
                let ghost hv = pairs_view(hs@);
                assert(hv[i as int] == (hs@[i as int].0@, hs@[i as int].1@));
                assert(!(valid_utf8(hv[i as int].0) && valid_utf8(hv[i as int].1)));
                assert(!pair_valid(hv[i as int]));
                return None;
            },
        };
        t.push((ks, vs));
        i = i + 1;
    }
    let ghost hv = pairs_view(hs@);
    assert forall|j: int| 0 <= j < hs@.len() implies hv[j] == (hs@[j].0@, hs@[j].1@) && #[trigger] pair_valid(hv[j]) by {
        assert(text_is(t@[j].0, hs@[j].0@));
    }
    Some(t)
}

/// Parses the request at the front of `s`, the bytes buffered so far; `eof`
/// says that the source has ended.
pub fn parse_buffered(s: &[u8], eof: bool) -> (r: ParseStep)
    ensures
        step_is(r, parse_model(s@, eof)),
        r is Complete ==> r->Complete_1 <= s@.len(),
{
    let total = s.len();
    proof {
        lemma_scan_line_advances(s@, 0, eof);
    }
    let (l, p) = match line_at(s, 0, eof) {
        LineScan::NeedMore => return ParseStep::Incomplete,
        LineScan::End => return ParseStep::Failed(ParseError::ConnectionAborted),
        LineScan::TooLong => return ParseStep::Failed(ParseError::LineTooLong),
        LineScan::Line(l, p) => (l, p),
    };
    let start_line = match parse_start_line(l.as_slice()) {
        Ok(sl) => sl,
        Err(e) => return ParseStep::Failed(e),
    };
    let ghost t = start_line_model(l@)->Ok_0;
    let (hs, q) = match read_header_block(s, p, eof) {
        Ok(Some(d)) => d,
        Ok(None) => return ParseStep::Incomplete,
        Err(e) => return ParseStep::Failed(e),
    };
    let ghost hv = pairs_view(hs@);
    let key: Vec<u8> = vec![99u8, 111, 110, 116, 101, 110, 116, 45, 108, 101, 110, 103, 116, 104];
    assert(key@ == content_length_key());
    let ci = find_key(&hs, &key);
    let texts = match decode_headers(&hs) {
        Some(x) => x,
        None => return ParseStep::Failed(ParseError::InvalidEncoding),
    };
    if ci >= texts.len() {
        assert(lookup(hv, content_length_key()) is None);
        let req = Request { start_line, headers: texts, body: None };
        assert(request_is(req, RawRequest { method: t.0, path: t.1, version: t.2, headers: hv, body: None }));
        return ParseStep::Complete(req, q);
    }
    assert(text_is(texts@[ci as int].0, hv[ci as int].0));
    assert(text_is(texts@[ci as int].1, hv[ci as int].1));
    proof {
        vstd::utf8::decode_utf8_encode_utf8(hv[ci as int].1);
    }
    let n = match parse_usize(texts[ci].1.as_str()) {
        Some(n) => n,
        None => return ParseStep::Failed(ParseError::InvalidContentLength),
    };
    if n <= total - q {
        let body = copy_range(s, q, q + n);
        let req = Request { start_line, headers: texts, body: Some(body) };
        ParseStep::Complete(req, q + n)
    } else if eof {
        ParseStep::Failed(ParseError::UnexpectedEndOfStream)
    } else {
        ParseStep::Incomplete
    }
}

/// The bytes received from a connection and not yet used, and whether the
/// connection has ended. The connection's own reads happen outside: each read's
/// bytes are handed to `fill`, and a read of zero bytes marks the end.
pub struct LineReader {
    buf: bytes::BytesMut,
    eof: bool,
}

impl LineReader {
    /// The bytes received and not yet used.
    pub closed spec fn pending(&self) -> Seq<u8> {
        bytes_of(self.buf)
    }

    /// Whether the source has ended.
    pub closed spec fn ended(&self) -> bool {
        self.eof
    }

    pub fn new() -> (r: LineReader)
        ensures
            r.pending() == Seq::<u8>::empty(),
            !r.ended(),
    {
        LineReader { buf: buffer_with_capacity(MAX_LINE_LEN), eof: false }
    }

    /// Whether the source has ended.
    pub fn is_ended(&self) -> (r: bool)
        ensures
            r == self.ended(),
    {
        self.eof
    }

    /// The number of bytes received and not yet used.
    pub fn pending_len(&self) -> (r: usize)
        ensures
            r == self.pending().len(),
    {
        buffer_len(&self.buf)
    }

    /// Hands over the bytes of one read from the source; an empty read marks
    /// the end of the source.
    pub fn fill(&mut self, chunk: &[u8])
        requires
            old(self).pending().len() + chunk@.len() <= isize::MAX,
        ensures
            chunk@.len() == 0 ==> final(self).pending() == old(self).pending() && final(self).ended(),
            chunk@.len() > 0 ==> final(self).pending() == old(self).pending() + chunk@
                && final(self).ended() == old(self).ended(),
    {
        if chunk.len() == 0 {
            self.eof = true;
        } else {
            buffer_append(&mut self.buf, chunk);
        }
    }

    /// Takes the next line, without its CRLF, when one can be decided; what
    /// follows it stays buffered.
    pub fn next_line(&mut self) -> (r: LineScan)
        ensures
            r.model(0) == scan_line(old(self).pending(), 0, old(self).ended()),
            final(self).ended() == old(self).ended(),
            match r {
                LineScan::Line(_, n) => final(self).pending() == old(self).pending().skip(n as int),
                _ => final(self).pending() == old(self).pending(),
            },
    {
        let snapshot = buffer_contents(&self.buf);
        proof {
            lemma_scan_line_advances(snapshot@, 0, self.eof);
        }
        let r = line_at(snapshot.as_slice(), 0, self.eof);
        if let LineScan::Line(_, n) = &r {
            buffer_skip(&mut self.buf, *n);
        }
        r
    }

    /// Takes exactly `n` bytes once that many are buffered: `Ok(None)` while
    /// more may come, and `UnexpectedEndOfStream` when the source ended first.
    /// Bytes after the `n`th stay buffered.
    pub fn read_n_bytes(&mut self, n: usize) -> (r: Result<Option<Vec<u8>>, ParseError>)
        ensures
            final(self).ended() == old(self).ended(),
            n <= old(self).pending().len() ==> r == Ok::<Option<Vec<u8>>, ParseError>(Some(r->Ok_0->Some_0))
                && r->Ok_0->Some_0@ == old(self).pending().take(n as int)
                && final(self).pending() == old(self).pending().skip(n as int),
            n > old(self).pending().len() ==> final(self).pending() == old(self).pending() && if old(self).ended() {
                r == Err::<Option<Vec<u8>>, ParseError>(ParseError::UnexpectedEndOfStream)
            } else {
                r == Ok::<Option<Vec<u8>>, ParseError>(None)
            },
    {
        if n <= buffer_len(&self.buf) {
            Ok(Some(buffer_take_front(&mut self.buf, n)))
        } else if self.eof {
            Err(ParseError::UnexpectedEndOfStream)
        } else {
            Ok(None)
        }
    }
}

/// Parses the request at the front of what `reader` holds. A complete request
/// leaves the reader with exactly the bytes after it (the start of a next
/// request); any other outcome leaves the reader as it was.
pub fn parse_request(reader: &mut LineReader) -> (r: ParseStep)
    ensures
        step_is(r, parse_model(old(reader).pending(), old(reader).ended())),
        final(reader).ended() == old(reader).ended(),
        match r {
            ParseStep::Complete(_, n) => final(reader).pending() == old(reader).pending().skip(n as int),
            _ => final(reader).pending() == old(reader).pending(),
        },
{
    let snapshot = buffer_contents(&reader.buf);
    let r = parse_buffered(snapshot.as_slice(), reader.eof);
    if let ParseStep::Complete(_, n) = &r {
        buffer_skip(&mut reader.buf, *n);
    }
    r
}

} // verus!
