use vstd::prelude::*;
use vstd::utf8::{decode_utf8, valid_utf8};

verus! {

/// `s` holds the text that the bytes `b` encode in UTF-8.
pub open spec fn text_is(s: String, b: Seq<u8>) -> bool {
    valid_utf8(b) && s@ == decode_utf8(b)
}

/// ASCII whitespace: space, tab, line feed, form feed and carriage return.
pub open spec fn is_space(b: u8) -> bool {
    b == 32 || b == 9 || b == 10 || b == 12 || b == 13
}

/// The first index at or after `i` that holds no whitespace (or the length).
pub open spec fn skip_space(s: Seq<u8>, i: int) -> int
    decreases s.len() - i,
{
    if 0 <= i < s.len() && is_space(s[i]) {
        skip_space(s, i + 1)
    } else {
        i
    }
}

/// The first index at or after `i` that holds whitespace (or the length).
pub open spec fn token_end(s: Seq<u8>, i: int) -> int
    decreases s.len() - i,
{
    if 0 <= i < s.len() && !is_space(s[i]) {
        token_end(s, i + 1)
    } else {
        i
    }
}

/// Unicode White_Space characters that UTF-8 encodes in one byte: tab, line
/// feed, vertical tab, form feed, carriage return and space.
pub open spec fn is_white1(a: u8) -> bool {
    (9 <= a <= 13) || a == 32
}

/// The two-byte UTF-8 encodings of White_Space: U+0085 and U+00A0.
pub open spec fn is_white2(a: u8, b: u8) -> bool {
    a == 0xC2 && (b == 0x85 || b == 0xA0)
}

/// The three-byte UTF-8 encodings of White_Space: U+1680, U+2000 to U+200A,
/// U+2028, U+2029, U+202F, U+205F and U+3000.
pub open spec fn is_white3(a: u8, b: u8, c: u8) -> bool {
    ||| (a == 0xE1 && b == 0x9A && c == 0x80)
    ||| (a == 0xE2 && b == 0x80 && ((0x80 <= c <= 0x8A) || c == 0xA8 || c == 0xA9 || c == 0xAF))
    ||| (a == 0xE2 && b == 0x81 && c == 0x9F)
    ||| (a == 0xE3 && b == 0x80 && c == 0x80)
}

/// The length of the encoding of a White_Space character that starts at `i`
/// of `s`, or 0 when none does.
pub open spec fn white_at(s: Seq<u8>, i: int) -> int {
    if i < 0 || i >= s.len() {
        0
    } else if is_white1(s[i]) {
        1
    } else if i + 1 < s.len() && is_white2(s[i], s[i + 1]) {
        2
    } else if i + 2 < s.len() && is_white3(s[i], s[i + 1], s[i + 2]) {
        3
    } else {
        0
    }
}

/// The length of the encoding of a White_Space character that ends at `j` of
/// `s` and starts at or after `lo`, or 0 when none does.
pub open spec fn white_before(s: Seq<u8>, lo: int, j: int) -> int {
    if lo <= j - 1 && is_white1(s[j - 1]) {
        1
    } else if lo <= j - 2 && is_white2(s[j - 2], s[j - 1]) {
        2
    } else if lo <= j - 3 && is_white3(s[j - 3], s[j - 2], s[j - 1]) {
        3
    } else {
        0
    }
}

/// The first index at or after `i` that starts no White_Space character.
pub open spec fn trim_front(s: Seq<u8>, i: int) -> int
    decreases s.len() - i,
{
    if 0 <= i < s.len() && white_at(s, i) > 0 {
        trim_front(s, i + white_at(s, i))
    } else {
        i
    }
}

/// The end of `s[lo..j]` once trailing White_Space characters are dropped.
pub open spec fn trim_end(s: Seq<u8>, lo: int, j: int) -> int
    decreases j - lo,
{
    if lo < j && white_before(s, lo, j) > 0 {
        trim_end(s, lo, j - white_before(s, lo, j))
    } else {
        j
    }
}

/// The UTF-8 text `s` without leading and trailing Unicode White_Space, as
/// `str::trim` leaves it.
pub open spec fn trim(s: Seq<u8>) -> Seq<u8> {
    let lo = trim_front(s, 0);
    s.subrange(lo, trim_end(s, lo, s.len() as int))
}

pub open spec fn lower_byte(b: u8) -> u8 {
    if 65 <= b <= 90 {
        (b + 32) as u8
    } else {
        b
    }
}

/// `s` with ASCII uppercase letters mapped to lowercase.
pub open spec fn lower(s: Seq<u8>) -> Seq<u8> {
    Seq::new(s.len(), |i: int| lower_byte(s[i]))
}

/// The first index at or after `i` that holds `c` (or the length).
pub open spec fn index_of(s: Seq<u8>, c: u8, i: int) -> int
    decreases s.len() - i,
{
    if 0 <= i < s.len() && s[i] != c {
        index_of(s, c, i + 1)
    } else {
        i
    }
}

pub open spec fn is_digit(b: u8) -> bool {
    48 <= b <= 57
}

/// The value of a string of decimal digits.
pub open spec fn digits_value(d: Seq<u8>) -> int
    decreases d.len(),
{
    if d.len() == 0 {
        0
    } else {
        digits_value(d.drop_last()) * 10 + (d.last() - 48)
    }
}

/// The number that `b` writes: an optional `+`, then one or more decimal
/// digits, of a value that fits a `usize`.
pub open spec fn decimal_usize(b: Seq<u8>) -> Option<usize> {
    let d = if b.len() > 0 && b[0] == 43 {
        b.skip(1)
    } else {
        b
    };
    if d.len() > 0 && (forall|i: int| 0 <= i < d.len() ==> is_digit(#[trigger] d[i]))
        && digits_value(d) <= usize::MAX {
        Some(digits_value(d) as usize)
    } else {
        None
    }
}

pub proof fn lemma_trim_front_bounds(s: Seq<u8>, i: int)
    requires
        0 <= i <= s.len(),
    ensures
        i <= trim_front(s, i) <= s.len(),
    decreases s.len() - i,
{
    if i < s.len() && white_at(s, i) > 0 {
        lemma_trim_front_bounds(s, i + white_at(s, i));
    }
}

pub proof fn lemma_trim_end_bounds(s: Seq<u8>, lo: int, j: int)
    requires
        0 <= lo <= j <= s.len(),
    ensures
        lo <= trim_end(s, lo, j) <= j,
    decreases j - lo,
{
    if lo < j && white_before(s, lo, j) > 0 {
        lemma_trim_end_bounds(s, lo, j - white_before(s, lo, j));
    }
}

pub proof fn lemma_index_of_bounds(s: Seq<u8>, c: u8, i: int)
    requires
        0 <= i <= s.len(),
    ensures
        i <= index_of(s, c, i) <= s.len(),
        index_of(s, c, i) < s.len() ==> s[index_of(s, c, i)] == c,
    decreases s.len() - i,
{
    if i < s.len() && s[i] != c {
        lemma_index_of_bounds(s, c, i + 1);
    }
}

/// Whether `a` and `b` hold the same bytes.
pub fn bytes_equal(a: &[u8], b: &[u8]) -> (r: bool)
    ensures
        r == (a@ == b@),
{
    if a.len() != b.len() {
        return false;
    }
    let mut i: usize = 0;
    while i < a.len()
        invariant
            a@.len() == b@.len(),
            0 <= i <= a@.len(),
            a@.take(i as int) == b@.take(i as int),
        decreases a@.len() - i,
    {
        if a[i] != b[i] {
            assert(a@[i as int] != b@[i as int]);
            return false;
        }
        assert(a@.take(i as int + 1) == a@.take(i as int).push(a@[i as int]));
        assert(b@.take(i as int + 1) == b@.take(i as int).push(b@[i as int]));
        i = i + 1;
    }
    assert(a@ == a@.take(i as int));
    assert(b@ == b@.take(i as int));
    true
}

pub fn is_space_byte(b: u8) -> (r: bool)
    ensures
        r == is_space(b),
{
    b == 32 || b == 9 || b == 10 || b == 12 || b == 13
}

/// Index of the first non-whitespace byte at or after `i`.
pub fn skip_space_from(s: &[u8], i: usize) -> (r: usize)
    requires
        i <= s@.len(),
    ensures
        r == skip_space(s@, i as int),
        i <= r <= s@.len(),
{
    let mut j = i;
    while j < s.len() && is_space_byte(s[j])
        invariant
            i <= j <= s@.len(),
            skip_space(s@, j as int) == skip_space(s@, i as int),
        decreases s@.len() - j,
    {
        j = j + 1;
    }
    j
}

/// Index of the first whitespace byte at or after `i`.
pub fn token_end_from(s: &[u8], i: usize) -> (r: usize)
    requires
        i <= s@.len(),
    ensures
        r == token_end(s@, i as int),
        i <= r <= s@.len(),
{
    let mut j = i;
    while j < s.len() && !is_space_byte(s[j])
        invariant
            i <= j <= s@.len(),
            token_end(s@, j as int) == token_end(s@, i as int),
        decreases s@.len() - j,
    {
        j = j + 1;
    }
    j
}

/// Index of the first `c` at or after `i`.
pub fn index_of_from(s: &[u8], c: u8, i: usize) -> (r: usize)
    requires
        i <= s@.len(),
    ensures
        r == index_of(s@, c, i as int),
        i <= r <= s@.len(),
{
    let mut j = i;
    while j < s.len() && s[j] != c
        invariant
            i <= j <= s@.len(),
            index_of(s@, c, j as int) == index_of(s@, c, i as int),
        decreases s@.len() - j,
    {
        j = j + 1;
    }
    j
}

/// Copy of `s[lo..hi]`.
pub fn copy_range(s: &[u8], lo: usize, hi: usize) -> (r: Vec<u8>)
    requires
        lo <= hi <= s@.len(),
    ensures
        r@ == s@.subrange(lo as int, hi as int),
{
    let mut r: Vec<u8> = Vec::new();
    let mut j = lo;
    while j < hi
        invariant
            lo <= j <= hi <= s@.len(),
            r@ == s@.subrange(lo as int, j as int),
        decreases hi - j,
    {
        r.push(s[j]);
        assert(s@.subrange(lo as int, j + 1) == s@.subrange(lo as int, j as int).push(s@[j as int]));
        j = j + 1;
    }
    r
}

fn white_width_at(s: &[u8], i: usize) -> (r: usize)
    requires
        i <= s@.len(),
    ensures
        r as int == white_at(s@, i as int),
{
    let n = s.len();
    if i >= n {
        0
    } else if (9 <= s[i] && s[i] <= 13) || s[i] == 32 {
        1
    } else if i + 1 < n && s[i] == 0xC2 && (s[i + 1] == 0x85 || s[i + 1] == 0xA0) {
        2
    } else if n - i > 2 && is_white3_bytes(s[i], s[i + 1], s[i + 2]) {
        3
    } else {
        0
    }
}

fn is_white3_bytes(a: u8, b: u8, c: u8) -> (r: bool)
    ensures
        r == is_white3(a, b, c),
{
    (a == 0xE1 && b == 0x9A && c == 0x80) || (a == 0xE2 && b == 0x80 && ((0x80 <= c && c <= 0x8A)
        || c == 0xA8 || c == 0xA9 || c == 0xAF)) || (a == 0xE2 && b == 0x81 && c == 0x9F) || (a
        == 0xE3 && b == 0x80 && c == 0x80)
}

fn white_width_before(s: &[u8], lo: usize, j: usize) -> (r: usize)
    requires
        lo <= j <= s@.len(),
    ensures
        r as int == white_before(s@, lo as int, j as int),
        r <= j - lo,
{
    if j - lo >= 1 && ((9 <= s[j - 1] && s[j - 1] <= 13) || s[j - 1] == 32) {
        1
    } else if j - lo >= 2 && s[j - 2] == 0xC2 && (s[j - 1] == 0x85 || s[j - 1] == 0xA0) {
        2
    } else if j - lo >= 3 && is_white3_bytes(s[j - 3], s[j - 2], s[j - 1]) {
        3
    } else {
        0
    }
}

/// The bytes of the UTF-8 text `s` without leading and trailing Unicode
/// White_Space.
pub fn trim_bytes(s: &[u8]) -> (r: Vec<u8>)
    ensures
        r@ == trim(s@),
{
    let n = s.len();
    let mut lo: usize = 0;
    loop
        invariant
            lo <= s@.len(),
            n == s@.len(),
            trim_front(s@, lo as int) == trim_front(s@, 0),
        ensures
            lo <= s@.len(),
            lo as int == trim_front(s@, 0),
        decreases s@.len() - lo,
    {
        let w = white_width_at(s, lo);
        if w == 0 {
            assert(trim_front(s@, lo as int) == lo);
            break;
        }
        lo = lo + w;
    }
    let mut hi = n;
    loop
        invariant
            lo <= hi <= s@.len(),
            lo as int == trim_front(s@, 0),
            trim_end(s@, lo as int, hi as int) == trim_end(s@, lo as int, s@.len() as int),
        ensures
            lo <= hi <= s@.len(),
            hi as int == trim_end(s@, lo as int, s@.len() as int),
        decreases hi - lo,
    {
        if hi <= lo {
            assert(trim_end(s@, lo as int, hi as int) == hi);
            break;
        }
        let w = white_width_before(s, lo, hi);
        if w == 0 {
            assert(trim_end(s@, lo as int, hi as int) == hi);
            break;
        }
        hi = hi - w;
    }
    copy_range(s, lo, hi)
}

/// The bytes of `s` with ASCII uppercase letters lowercased.
pub fn lower_bytes(s: &[u8]) -> (r: Vec<u8>)
    ensures
        r@ == lower(s@),
{
    let mut r: Vec<u8> = Vec::new();
    let mut j: usize = 0;
    while j < s.len()
        invariant
            j <= s@.len(),
            r@ == lower(s@).take(j as int),
        decreases s@.len() - j,
    {
        let b = s[j];
        let l = if 65 <= b && b <= 90 { b + 32 } else { b };
        r.push(l);
        assert(lower(s@).take(j + 1) == lower(s@).take(j as int).push(l));
        j = j + 1;
    }
    assert(lower(s@).take(j as int) == lower(s@));
    r
}

} // verus!
