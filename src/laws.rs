use vstd::prelude::*;

use crate::buffer::{crlf_at, crlf_from};
use crate::parser::{
    add_header_line, header_block, header_of, insert_header, key_index, lemma_crlf_from_bounds,
    lemma_scan_line_advances, lookup, parse_model, scan_line, HeadModel, LineModel, ParseError,
    ParseModel,
};
use crate::text::{index_of, lower, trim};

verus! {

proof fn lemma_crlf_from_extend(s: Seq<u8>, t: Seq<u8>, i: int)
    requires
        0 <= i <= s.len(),
    ensures
        crlf_from(s, i) < s.len() ==> crlf_from(s + t, i) == crlf_from(s, i),
        crlf_from(s, i) >= s.len() ==> crlf_from(s + t, i) >= s.len() - 1 && crlf_from(s + t, i) >= i,
    decreases s.len() - i,
{
    let u = s + t;
    lemma_crlf_from_bounds(s, i);
    lemma_crlf_from_bounds(u, i);
    if i < s.len() {
        if i + 1 < s.len() {
            assert(crlf_at(u, i) == crlf_at(s, i));
            if !crlf_at(s, i) {
                lemma_crlf_from_extend(s, t, i + 1);
            }
        }
    }
}

proof fn lemma_scan_extend(s: Seq<u8>, t: Seq<u8>, pos: int, eof: bool)
    requires
        0 <= pos <= s.len(),
        scan_line(s, pos, false) is Line,
    ensures
        scan_line(s + t, pos, eof) == scan_line(s, pos, false),
{
    let u = s + t;
    lemma_crlf_from_extend(s, t, pos);
    lemma_crlf_from_bounds(s, pos);
    let j = crlf_from(s, pos);
    if j < s.len() {
        assert(u.subrange(pos, j) == s.subrange(pos, j));
    }
}

proof fn lemma_header_block_extend(
    s: Seq<u8>,
    t: Seq<u8>,
    pos: int,
    eof: bool,
    acc: Seq<(Seq<u8>, Seq<u8>)>,
)
    requires
        0 <= pos <= s.len(),
        !(header_block(s, pos, false, acc) is NeedMore),
        header_block(s, pos, false, acc) != HeadModel::Failed(ParseError::LineTooLong),
    ensures
        header_block(s + t, pos, eof, acc) == header_block(s, pos, false, acc),
        header_block(s, pos, false, acc) is Done ==> 0 <= header_block(s, pos, false, acc)->Done_1
            <= s.len(),
    decreases s.len() - pos,
{
    lemma_scan_line_advances(s, pos, false);
    match scan_line(s, pos, false) {
        LineModel::Line(l, next) => {
            lemma_scan_extend(s, t, pos, eof);
            if l.len() != 0 && pos < next <= s.len() {
                lemma_header_block_extend(s, t, next, eof, add_header_line(acc, l));
            }
        },
        _ => {},
    }
}

/// Chunk-boundary independence. Once the bytes buffered so far decide the
/// request at their front, as a request or as any error but `LineTooLong`, no
/// bytes that arrive later, nor the end of the source, change that outcome. A
/// well-formed request, whose lines are short enough, never meets
/// `LineTooLong`; so however its bytes are split into reads, parsing after each
/// read yields the outcome that the whole stream gives at once.
pub proof fn lemma_outcome_stable(s: Seq<u8>, t: Seq<u8>, eof: bool)
    requires
        !(parse_model(s, false) is NeedMore),
        parse_model(s, false) != ParseModel::Failed(ParseError::LineTooLong),
    ensures
        parse_model(s + t, eof) == parse_model(s, false),
{
    let u = s + t;
    lemma_scan_line_advances(s, 0, false);
    match scan_line(s, 0, false) {
        LineModel::Line(l, p) => {
            lemma_scan_extend(s, t, 0, eof);
            if crate::parser::start_line_model(l) is Ok && !(header_block(s, p, false, seq![]) is NeedMore) {
                lemma_header_block_extend(s, t, p, eof, seq![]);
                match header_block(s, p, false, seq![]) {
                    HeadModel::Done(hs, q) => {
                        assert forall|n: int| 0 <= q && 0 <= n && q + n <= s.len() implies #[trigger] u.subrange(q, q + n)
                            == s.subrange(q, q + n) by {
                            assert(u.subrange(q, q + n) =~= s.subrange(q, q + n));
                        }
                    },
                    _ => {},
                }
            }
        },
        _ => {},
    }
}

proof fn lemma_no_crlf(s: Seq<u8>, i: int)
    requires
        0 <= i <= s.len(),
        forall|j: int| i <= j < s.len() ==> !crlf_at(s, j),
    ensures
        crlf_from(s, i) == s.len(),
    decreases s.len() - i,
{
    if i < s.len() {
        lemma_no_crlf(s, i + 1);
    }
}

/// Memory bound: a line that has more than `MAX_LINE_LEN` bytes waiting and no
/// CRLF is refused with `LineTooLong` at once, whether or not the source has
/// ended; for a start line, that is the outcome of the whole request.
pub proof fn lemma_overlong_line_refused(s: Seq<u8>, pos: int, eof: bool)
    requires
        0 <= pos <= s.len(),
        s.len() - pos > crate::parser::MAX_LINE_LEN,
        forall|j: int| pos <= j < s.len() ==> !crlf_at(s, j),
    ensures
        scan_line(s, pos, eof) == LineModel::TooLong,
        pos == 0 ==> parse_model(s, eof) == ParseModel::Failed(ParseError::LineTooLong),
{
    lemma_no_crlf(s, pos);
}

proof fn lemma_header_block_decided(s: Seq<u8>, pos: int, acc: Seq<(Seq<u8>, Seq<u8>)>)
    requires
        0 <= pos <= s.len(),
    ensures
        !(header_block(s, pos, true, acc) is NeedMore),
    decreases s.len() - pos,
{
    lemma_crlf_from_bounds(s, pos);
    lemma_scan_line_advances(s, pos, true);
    match scan_line(s, pos, true) {
        LineModel::Line(l, next) => {
            if l.len() != 0 {
                lemma_header_block_decided(s, next, add_header_line(acc, l));
            }
        },
        _ => {},
    }
}

/// Once the source has ended, the buffered bytes always decide the outcome:
/// the last attempt on a connection never waits for more.
pub proof fn lemma_end_decides(s: Seq<u8>)
    ensures
        !(parse_model(s, true) is NeedMore),
{
    lemma_crlf_from_bounds(s, 0);
    lemma_scan_line_advances(s, 0, true);
    match scan_line(s, 0, true) {
        LineModel::Line(l, p) => {
            lemma_header_block_decided(s, p, seq![]);
        },
        _ => {},
    }
}

proof fn lemma_key_index_at(hs: Seq<(Seq<u8>, Seq<u8>)>, k: Seq<u8>, a: int, i: int)
    requires
        0 <= a <= i <= hs.len(),
        forall|j: int| a <= j < i ==> (#[trigger] hs[j]).0 != k,
        i < hs.len() ==> hs[i].0 == k,
    ensures
        key_index(hs, k, a) == i,
    decreases i - a,
{
    if a < i {
        lemma_key_index_at(hs, k, a + 1, i);
    }
}

proof fn lemma_key_index_props(hs: Seq<(Seq<u8>, Seq<u8>)>, k: Seq<u8>, a: int)
    requires
        0 <= a <= hs.len(),
    ensures
        a <= key_index(hs, k, a) <= hs.len(),
        forall|j: int| a <= j < key_index(hs, k, a) ==> (#[trigger] hs[j]).0 != k,
        key_index(hs, k, a) < hs.len() ==> hs[key_index(hs, k, a)].0 == k,
    decreases hs.len() - a,
{
    if a < hs.len() && hs[a].0 != k {
        lemma_key_index_props(hs, k, a + 1);
    }
}

/// Recording a header makes its value the one found under its name.
pub proof fn lemma_insert_then_lookup(hs: Seq<(Seq<u8>, Seq<u8>)>, k: Seq<u8>, v: Seq<u8>)
    ensures
        lookup(insert_header(hs, k, v), k) == Some(v),
{
    lemma_key_index_props(hs, k, 0);
    let i = key_index(hs, k, 0);
    let h2 = insert_header(hs, k, v);
    assert forall|j: int| 0 <= j < i implies (#[trigger] h2[j]).0 != k by {
        assert(h2[j] == hs[j]);
    }
    lemma_key_index_at(h2, k, 0, i);
}

/// Recording a header leaves the value found under any other name as it was.
proof fn lemma_insert_other(hs: Seq<(Seq<u8>, Seq<u8>)>, k2: Seq<u8>, v: Seq<u8>, k: Seq<u8>)
    requires
        k2 != k,
    ensures
        lookup(insert_header(hs, k2, v), k) == lookup(hs, k),
{
    lemma_key_index_props(hs, k2, 0);
    lemma_key_index_props(hs, k, 0);
    let i2 = key_index(hs, k2, 0);
    let i = key_index(hs, k, 0);
    let h2 = insert_header(hs, k2, v);
    if i < hs.len() {
        assert forall|j: int| 0 <= j < i implies (#[trigger] h2[j]).0 != k by {
            assert(h2[j].0 == hs[j].0);
        }
        assert(h2[i] == hs[i]);
        lemma_key_index_at(h2, k, 0, i);
    } else {
        assert forall|j: int| 0 <= j < h2.len() implies (#[trigger] h2[j]).0 != k by {
            if j < hs.len() {
                assert(h2[j].0 == hs[j].0);
            }
        }
        lemma_key_index_at(h2, k, 0, h2.len() as int);
    }
}

/// The headers after the lines `ls` are read in order, starting from `hs`.
pub open spec fn read_lines(hs: Seq<(Seq<u8>, Seq<u8>)>, ls: Seq<Seq<u8>>) -> Seq<(Seq<u8>, Seq<u8>)>
    decreases ls.len(),
{
    if ls.len() == 0 {
        hs
    } else {
        add_header_line(read_lines(hs, ls.drop_last()), ls.last())
    }
}

/// The trimmed value of the last of the lines `ls` whose header is named `k`.
pub open spec fn last_value(ls: Seq<Seq<u8>>, k: Seq<u8>) -> Option<Seq<u8>>
    decreases ls.len(),
{
    if ls.len() == 0 {
        None
    } else if header_of(ls.last()) is Some && header_of(ls.last())->Some_0.0 == k {
        Some(header_of(ls.last())->Some_0.1)
    } else {
        last_value(ls.drop_last(), k)
    }
}

/// The header mapping as a whole: after any header lines are read, the value
/// under a name is that of the last line that gives that name (lowercased and
/// trimmed); a name that no line gives keeps what it had, and lines without
/// `:` add nothing.
pub proof fn lemma_header_mapping(hs: Seq<(Seq<u8>, Seq<u8>)>, ls: Seq<Seq<u8>>, k: Seq<u8>)
    ensures
        lookup(read_lines(hs, ls), k) == match last_value(ls, k) {
            Some(v) => Some(v),
            None => lookup(hs, k),
        },
    decreases ls.len(),
{
    if ls.len() > 0 {
        lemma_header_mapping(hs, ls.drop_last(), k);
        let prev = read_lines(hs, ls.drop_last());
        match header_of(ls.last()) {
            Some(kv) => {
                if kv.0 == k {
                    lemma_insert_then_lookup(prev, kv.0, kv.1);
                } else {
                    lemma_insert_other(prev, kv.0, kv.1, k);
                }
            },
            None => {},
        }
    }
}

/// The header lines of the block that starts at `pos`, up to the empty line.
pub open spec fn block_lines(s: Seq<u8>, pos: int, eof: bool) -> Seq<Seq<u8>>
    decreases s.len() - pos,
{
    match scan_line(s, pos, eof) {
        LineModel::Line(l, next) => if l.len() != 0 && pos < next <= s.len() {
            seq![l] + block_lines(s, next, eof)
        } else {
            seq![]
        },
        _ => seq![],
    }
}

proof fn lemma_read_lines_prepend(hs: Seq<(Seq<u8>, Seq<u8>)>, l: Seq<u8>, rest: Seq<Seq<u8>>)
    ensures
        read_lines(add_header_line(hs, l), rest) == read_lines(hs, seq![l] + rest),
    decreases rest.len(),
{
    let all = seq![l] + rest;
    if rest.len() == 0 {
        assert(all.drop_last() =~= Seq::<Seq<u8>>::empty());
        assert(all.last() == l);
        assert(read_lines(hs, all.drop_last()) == hs);
    } else {
        assert(all.drop_last() =~= seq![l] + rest.drop_last());
        assert(all.last() == rest.last());
        lemma_read_lines_prepend(hs, l, rest.drop_last());
    }
}

proof fn lemma_header_block_lines(s: Seq<u8>, pos: int, eof: bool, acc: Seq<(Seq<u8>, Seq<u8>)>)
    requires
        0 <= pos <= s.len(),
    ensures
        header_block(s, pos, eof, acc) is Done ==> header_block(s, pos, eof, acc)->Done_0 == read_lines(
            acc,
            block_lines(s, pos, eof),
        ),
    decreases s.len() - pos,
{
    lemma_scan_line_advances(s, pos, eof);
    match scan_line(s, pos, eof) {
        LineModel::Line(l, next) => {
            if l.len() != 0 && pos < next <= s.len() {
                lemma_header_block_lines(s, next, eof, add_header_line(acc, l));
                lemma_read_lines_prepend(acc, l, block_lines(s, next, eof));
            }
        },
        _ => {},
    }
}

/// A parsed request's headers are what reading the lines of its header block
/// in order gives; with `lemma_header_mapping`, each name holds the value of
/// the last of those lines that gives it.
pub proof fn lemma_parsed_headers(s: Seq<u8>, eof: bool)
    ensures
        parse_model(s, eof) is Done ==> match scan_line(s, 0, eof) {
            LineModel::Line(_, p) => parse_model(s, eof)->Done_0.headers == read_lines(
                seq![],
                block_lines(s, p, eof),
            ),
            _ => false,
        },
{
    lemma_scan_line_advances(s, 0, eof);
    match scan_line(s, 0, eof) {
        LineModel::Line(l, p) => {
            lemma_header_block_lines(s, p, eof, seq![]);
        },
        _ => {},
    }
}

proof fn lemma_index_of_prefix(n: Seq<u8>, rest: Seq<u8>, a: int)
    requires
        0 <= a <= n.len(),
        rest.len() > 0,
        rest[0] == 58,
        forall|j: int| 0 <= j < n.len() ==> n[j] != 58,
    ensures
        index_of(n + rest, 58, a) == n.len(),
    decreases n.len() - a,
{
    if a < n.len() {
        lemma_index_of_prefix(n, rest, a + 1);
    }
}

/// The header that the line `name: value` gives, for a name without `:`.
proof fn lemma_header_of_line(n: Seq<u8>, v: Seq<u8>)
    requires
        forall|j: int| 0 <= j < n.len() ==> n[j] != 58,
    ensures
        header_of(n + seq![58u8] + v) == Some((trim(lower(n)), trim(v))),
{
    let l = n + seq![58u8] + v;
    lemma_index_of_prefix(n, seq![58u8] + v, 0);
    assert(l == n + (seq![58u8] + v));
    assert(l.subrange(0, n.len() as int) == n);
    assert(l.subrange(n.len() as int + 1, l.len() as int) == v);
}

/// Header names are compared without regard to ASCII case, and of two lines
/// that name the same header the later one's value is kept: after the lines
/// `n1: v1` and `n2: v2`, where `n1` and `n2` differ at most in ASCII case,
/// the header named by both holds the trimmed `v2`.
pub proof fn lemma_same_name_last_wins(
    hs: Seq<(Seq<u8>, Seq<u8>)>,
    n1: Seq<u8>,
    v1: Seq<u8>,
    n2: Seq<u8>,
    v2: Seq<u8>,
)
    requires
        lower(n1) == lower(n2),
        forall|j: int| 0 <= j < n1.len() ==> n1[j] != 58,
        forall|j: int| 0 <= j < n2.len() ==> n2[j] != 58,
    ensures
        header_of(n1 + seq![58u8] + v1)->Some_0.0 == header_of(n2 + seq![58u8] + v2)->Some_0.0,
        lookup(
            add_header_line(add_header_line(hs, n1 + seq![58u8] + v1), n2 + seq![58u8] + v2),
            trim(lower(n1)),
        ) == Some(trim(v2)),
{
    lemma_header_of_line(n1, v1);
    lemma_header_of_line(n2, v2);
    let h1 = add_header_line(hs, n1 + seq![58u8] + v1);
    lemma_insert_then_lookup(h1, trim(lower(n1)), trim(v2));
}

/// Header names are pairwise distinct and hold no ASCII uppercase letter.
pub open spec fn names_well_formed(hs: Seq<(Seq<u8>, Seq<u8>)>) -> bool {
    &&& forall|i: int, j: int| 0 <= i < j < hs.len() ==> (#[trigger] hs[i]).0 != (#[trigger] hs[j]).0
    &&& forall|i: int| 0 <= i < hs.len() ==> lower((#[trigger] hs[i]).0) == hs[i].0
}

proof fn lemma_header_name_lowercase(l: Seq<u8>)
    requires
        header_of(l) is Some,
    ensures
        lower(header_of(l)->Some_0.0) == header_of(l)->Some_0.0,
{
    let c = index_of(l, 58, 0);
    let y = lower(l.subrange(0, c));
    let k = trim(y);
    crate::text::lemma_index_of_bounds(l, 58, 0);
    crate::text::lemma_trim_front_bounds(y, 0);
    let a = crate::text::trim_front(y, 0);
    crate::text::lemma_trim_end_bounds(y, a, y.len() as int);
    assert(lower(k) =~= k);
}

proof fn lemma_insert_well_formed(hs: Seq<(Seq<u8>, Seq<u8>)>, k: Seq<u8>, v: Seq<u8>)
    requires
        names_well_formed(hs),
        lower(k) == k,
    ensures
        names_well_formed(insert_header(hs, k, v)),
{
    lemma_key_index_props(hs, k, 0);
    let i = key_index(hs, k, 0);
    let h2 = insert_header(hs, k, v);
    if i < hs.len() {
        assert forall|j: int| 0 <= j < h2.len() implies (#[trigger] h2[j]).0 == hs[j].0 by {}
    } else {
        assert forall|j: int| 0 <= j < hs.len() implies (#[trigger] h2[j]) == hs[j] by {}
        assert(h2[hs.len() as int].0 == k);
    }
}

proof fn lemma_header_block_well_formed(s: Seq<u8>, pos: int, eof: bool, acc: Seq<(Seq<u8>, Seq<u8>)>)
    requires
        0 <= pos <= s.len(),
        names_well_formed(acc),
    ensures
        header_block(s, pos, eof, acc) is Done ==> names_well_formed(header_block(s, pos, eof, acc)->Done_0),
    decreases s.len() - pos,
{
    lemma_scan_line_advances(s, pos, eof);
    match scan_line(s, pos, eof) {
        LineModel::Line(l, next) => {
            if l.len() != 0 && pos < next <= s.len() {
                if header_of(l) is Some {
                    lemma_header_name_lowercase(l);
                    lemma_insert_well_formed(acc, header_of(l)->Some_0.0, header_of(l)->Some_0.1);
                }
                lemma_header_block_well_formed(s, next, eof, add_header_line(acc, l));
            }
        },
        _ => {},
    }
}

/// The headers of a parsed request form a mapping: each name occurs once, and
/// every name is lowercase.
pub proof fn lemma_header_names_unique(s: Seq<u8>, eof: bool)
    ensures
        parse_model(s, eof) is Done ==> names_well_formed(parse_model(s, eof)->Done_0.headers),
{
    lemma_scan_line_advances(s, 0, eof);
    match scan_line(s, 0, eof) {
        LineModel::Line(l, p) => {
            lemma_header_block_well_formed(s, p, eof, seq![]);
        },
        _ => {},
    }
}

} // verus!
