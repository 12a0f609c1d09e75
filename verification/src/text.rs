//! Character-level text utilities.
//!
//! The library models text as sequences of characters (`Seq<char>`): every
//! scanner, substitution and position computation is specified and verified
//! over that model. This module supplies the conversions between `str` /
//! `String` and `Vec<char>`, plus small verified helpers (prefix tests,
//! substring search, trimming, ASCII lowercasing, decimal digits) shared by
//! the other modules.

use vstd::prelude::*;

verus! {

/// Upper bound on the length of a text the library processes, so that
/// line/column coordinates fit the `u32` fields of the data model and
/// lengths fit `isize` on every platform.
pub const MAX_TEXT: usize = 0x7FF_FFFF;

/// Upper bound on the length of a rewritten text: every expression span is
/// at least three characters and its placeholder at most nineteen, so
/// substitution grows a text by less than this factor.
pub const MAX_REWRITTEN: usize = MAX_TEXT * 20;

/// Convert a string slice into the vector of its characters.
pub fn str_to_chars(s: &str) -> (v: Vec<char>)
    ensures
        v@ == s@,
{
    let n = s.unicode_len();
    let mut v: Vec<char> = Vec::new();
    let mut i: usize = 0;
    while i < n
        invariant
            i <= n,
            n == s@.len(),
            v@ == s@.take(i as int),
        decreases n - i,
    {
        let c = s.get_char(i);
        v.push(c);
        assert(s@.take(i + 1 as int) == s@.take(i as int).push(s@[i as int]));
        i += 1;
    }
    assert(v@ == s@.take(n as int));
    assert(s@.take(n as int) == s@);
    v
}

/// Relies on `String: FromIterator<char>` (via `Iterator::collect`): the
/// collected string consists of exactly the iterated characters, in order.
#[verifier::external_body]
pub fn chars_to_string(v: &Vec<char>) -> (s: String)
    ensures
        s@ == v@,
{
    v.iter().collect()
}

/// Copy the characters of `v` in the index range `[from, to)`.
pub fn chars_range(v: &Vec<char>, from: usize, to: usize) -> (r: Vec<char>)
    requires
        from <= to <= v@.len(),
    ensures
        r@ == v@.subrange(from as int, to as int),
{
    let mut r: Vec<char> = Vec::new();
    let mut i: usize = from;
    while i < to
        invariant
            from <= i <= to <= v@.len(),
            r@ == v@.subrange(from as int, i as int),
        decreases to - i,
    {
        r.push(v[i]);
        assert(v@.subrange(from as int, i + 1 as int) == v@.subrange(from as int, i as int).push(
            v@[i as int],
        ));
        i += 1;
    }
    r
}

/// Append the characters of `v` in the index range `[from, to)` to `out`.
pub fn push_range(out: &mut Vec<char>, v: &Vec<char>, from: usize, to: usize)
    requires
        from <= to <= v@.len(),
    ensures
        final(out)@ == old(out)@ + v@.subrange(from as int, to as int),
{
    let mut i: usize = from;
    while i < to
        invariant
            from <= i <= to <= v@.len(),
            out@ == old(out)@ + v@.subrange(from as int, i as int),
        decreases to - i,
    {
        out.push(v[i]);
        proof {
            assert(v@.subrange(from as int, i + 1 as int) == v@.subrange(from as int, i as int).push(
                v@[i as int],
            ));
            assert(out@ =~= old(out)@ + v@.subrange(from as int, i + 1 as int));
        }
        i += 1;
    }
    proof {
        assert(out@ =~= old(out)@ + v@.subrange(from as int, to as int));
    }
}

/// The needle `n` occurs in `h` starting at position `i`.
pub open spec fn occurs_at(h: Seq<char>, n: Seq<char>, i: int) -> bool {
    0 <= i && i + n.len() <= h.len() && h.subrange(i, i + n.len()) == n
}

/// The needle `n` occurs somewhere in `h`.
pub open spec fn occurs_in(h: Seq<char>, n: Seq<char>) -> bool {
    exists|i: int| occurs_at(h, n, i)
}

/// Does the needle occur in `h` at position `at`?
pub fn chars_match_at(h: &Vec<char>, n: &Vec<char>, at: usize) -> (r: bool)
    ensures
        r == occurs_at(h@, n@, at as int),
{
    let hl = h.len();
    let nl = n.len();
    if at > hl || nl > hl - at {
        assert(!occurs_at(h@, n@, at as int));
        return false;
    }
    let mut i: usize = 0;
    while i < nl
        invariant
            0 <= i <= nl,
            nl == n@.len(),
            hl == h@.len(),
            at + nl <= hl,
            forall|k: int| 0 <= k < i ==> h@[at + k] == n@[k],
        decreases nl - i,
    {
        if h[at + i] != n[i] {
            assert(h@.subrange(at as int, at + n@.len()) != n@) by {
                assert(h@.subrange(at as int, at + n@.len())[i as int] != n@[i as int]);
            }
            return false;
        }
        i += 1;
    }
    assert(h@.subrange(at as int, at + n@.len()) =~= n@);
    true
}

/// First position at which the needle occurs in `h`, if any.
pub open spec fn first_occurrence(h: Seq<char>, n: Seq<char>) -> Option<int>
    decreases h.len(),
{
    if occurs_at(h, n, 0) {
        Some(0)
    } else if h.len() == 0 {
        None
    } else {
        match first_occurrence(h.drop_first(), n) {
            Some(i) => Some(i + 1),
            None => None,
        }
    }
}

proof fn lemma_occurs_shift(h: Seq<char>, n: Seq<char>, i: int)
    requires
        h.len() > 0,
        i >= 1,
    ensures
        occurs_at(h, n, i) == occurs_at(h.drop_first(), n, i - 1),
{
    if occurs_at(h, n, i) {
        assert(h.drop_first().subrange(i - 1, i - 1 + n.len()) =~= h.subrange(i, i + n.len()));
    }
    if occurs_at(h.drop_first(), n, i - 1) {
        assert(h.subrange(i, i + n.len()) =~= h.drop_first().subrange(i - 1, i - 1 + n.len()));
    }
}

/// The first occurrence is an occurrence, is minimal, and exists whenever any
/// occurrence exists.
pub proof fn lemma_first_occurrence(h: Seq<char>, n: Seq<char>)
    ensures
        first_occurrence(h, n) matches Some(i) ==> occurs_at(h, n, i) && forall|j: int|
            0 <= j < i ==> !occurs_at(h, n, j),
        first_occurrence(h, n) is None ==> forall|j: int| !occurs_at(h, n, j),
        occurs_in(h, n) <==> first_occurrence(h, n) is Some,
    decreases h.len(),
{
    if occurs_at(h, n, 0) {
        assert(occurs_in(h, n));
    } else if h.len() == 0 {
        assert(forall|j: int| !occurs_at(h, n, j));
    } else {
        lemma_first_occurrence(h.drop_first(), n);
        assert forall|i: int| i >= 1 implies occurs_at(h, n, i) == occurs_at(
            h.drop_first(),
            n,
            i - 1,
        ) by {
            lemma_occurs_shift(h, n, i);
        }
        match first_occurrence(h.drop_first(), n) {
            Some(i) => {
                assert(occurs_at(h.drop_first(), n, i));
                assert(occurs_at(h, n, i + 1));
                assert(occurs_in(h, n));
            },
            None => {
                assert forall|j: int| !occurs_at(h, n, j) by {
                    if j >= 1 {
                        assert(!occurs_at(h.drop_first(), n, j - 1));
                    }
                }
            },
        }
    }
}

/// Search `h` for the first occurrence of `n`.
pub fn find_chars(h: &Vec<char>, n: &Vec<char>) -> (r: Option<usize>)
    ensures
        match r {
            Some(i) => first_occurrence(h@, n@) == Some(i as int),
            None => first_occurrence(h@, n@) is None,
        },
{
    proof {
        lemma_first_occurrence(h@, n@);
    }
    let hl = h.len();
    let mut at: usize = 0;
    while at < hl
        invariant
            0 <= at <= hl,
            hl == h@.len(),
            forall|j: int| 0 <= j < at ==> !occurs_at(h@, n@, j),
        decreases hl - at,
    {
        if chars_match_at(h, n, at) {
            proof {
                lemma_first_occurrence(h@, n@);
                let fo = first_occurrence(h@, n@);
                if fo is Some {
                    assert(!(fo->0 < at) && !(fo->0 > at));
                }
            }
            return Some(at);
        }
        at += 1;
    }
    if chars_match_at(h, n, hl) {
        proof {
            lemma_first_occurrence(h@, n@);
            let fo = first_occurrence(h@, n@);
            if fo is Some {
                assert(!(fo->0 < hl) && !(fo->0 > hl));
            }
        }
        return Some(hl);
    }
    proof {
        lemma_first_occurrence(h@, n@);
        assert forall|j: int| !occurs_at(h@, n@, j) by {
            if 0 <= j < hl {
            } else if j == hl {
            }
        }
    }
    None
}

/// Does the needle occur anywhere in `h`?
pub fn chars_contain(h: &Vec<char>, n: &Vec<char>) -> (r: bool)
    ensures
        r == occurs_in(h@, n@),
{
    proof {
        lemma_first_occurrence(h@, n@);
    }
    find_chars(h, n).is_some()
}

/// Equality of two character vectors.
pub fn chars_eq(a: &Vec<char>, b: &Vec<char>) -> (r: bool)
    ensures
        r == (a@ == b@),
{
    let n = a.len();
    if n != b.len() {
        return false;
    }
    let mut i: usize = 0;
    while i < n
        invariant
            0 <= i <= n,
            n == a@.len(),
            n == b@.len(),
            forall|k: int| 0 <= k < i ==> a@[k] == b@[k],
        decreases n - i,
    {
        if a[i] != b[i] {
            return false;
        }
        i += 1;
    }
    proof {
        assert(a@ =~= b@);
    }
    true
}

/// Equality of two strings as character sequences.
pub fn str_eq(a: &str, b: &str) -> (r: bool)
    ensures
        r == (a@ == b@),
{
    let na = a.unicode_len();
    let nb = b.unicode_len();
    if na != nb {
        return false;
    }
    let mut i: usize = 0;
    while i < na
        invariant
            0 <= i <= na,
            na == a@.len(),
            na == b@.len(),
            forall|k: int| 0 <= k < i ==> a@[k] == b@[k],
        decreases na - i,
    {
        if a.get_char(i) != b.get_char(i) {
            return false;
        }
        i += 1;
    }
    proof {
        assert(a@ =~= b@);
    }
    true
}

/// The characters the host language's `str::trim` removes: the Unicode
/// white-space characters.
pub open spec fn is_space_char(c: char) -> bool {
    c == ' ' || c == '\t' || c == '\n' || c == '\u{b}' || c == '\u{c}' || c == '\r' || c
        == '\u{85}' || c == '\u{a0}' || c == '\u{1680}' || c == '\u{2000}' || c == '\u{2001}' || c
        == '\u{2002}' || c == '\u{2003}' || c == '\u{2004}' || c == '\u{2005}' || c == '\u{2006}'
        || c == '\u{2007}' || c == '\u{2008}' || c == '\u{2009}' || c == '\u{200a}' || c
        == '\u{2028}' || c == '\u{2029}' || c == '\u{202f}' || c == '\u{205f}' || c == '\u{3000}'
}

/// Decide whether a character is white space.
pub fn is_space(c: char) -> (r: bool)
    ensures
        r == is_space_char(c),
{
    c == ' ' || c == '\t' || c == '\n' || c == '\u{b}' || c == '\u{c}' || c == '\r' || c
        == '\u{85}' || c == '\u{a0}' || c == '\u{1680}' || c == '\u{2000}' || c == '\u{2001}' || c
        == '\u{2002}' || c == '\u{2003}' || c == '\u{2004}' || c == '\u{2005}' || c == '\u{2006}'
        || c == '\u{2007}' || c == '\u{2008}' || c == '\u{2009}' || c == '\u{200a}' || c
        == '\u{2028}' || c == '\u{2029}' || c == '\u{202f}' || c == '\u{205f}' || c == '\u{3000}'
}

/// `v` with leading and trailing white space removed.
pub open spec fn trimmed(v: Seq<char>) -> Seq<char>
    decreases v.len(),
{
    if v.len() == 0 {
        v
    } else if is_space_char(v.first()) {
        trimmed(v.drop_first())
    } else if is_space_char(v.last()) {
        trimmed(v.drop_last())
    } else {
        v
    }
}

/// When the characters outside `[lo, hi)` are all white space and those at the
/// two ends of `[lo, hi)` are not, trimming yields exactly that range.
pub proof fn lemma_trimmed_is_range(v: Seq<char>, lo: int, hi: int)
    requires
        0 <= lo <= hi <= v.len(),
        forall|k: int| 0 <= k < lo ==> is_space_char(v[k]),
        forall|k: int| hi <= k < v.len() ==> is_space_char(v[k]),
        lo < hi ==> !is_space_char(v[lo]) && !is_space_char(v[hi - 1]),
    ensures
        trimmed(v) == v.subrange(lo, hi),
    decreases v.len(),
{
    if v.len() == 0 {
        assert(v.subrange(lo, hi) =~= v);
    } else if is_space_char(v.first()) {
        let d = v.drop_first();
        if lo == hi {
            assert forall|k: int| 0 <= k < d.len() implies is_space_char(d[k]) by {
                assert(d[k] == v[k + 1]);
            }
            lemma_trimmed_is_range(d, 0, 0);
            assert(v.subrange(lo, hi) =~= d.subrange(0, 0));
        } else {
            assert(lo >= 1);
            lemma_trimmed_is_range(d, lo - 1, hi - 1);
            assert(v.subrange(lo, hi) =~= d.subrange(lo - 1, hi - 1));
        }
    } else if is_space_char(v.last()) {
        let d = v.drop_last();
        if lo == hi {
            assert(lo == 0);
            lemma_trimmed_is_range(d, 0, 0);
            assert(v.subrange(lo, hi) =~= d.subrange(0, 0));
        } else {
            assert(hi - 1 != v.len() - 1);
            lemma_trimmed_is_range(d, lo, hi);
            assert(v.subrange(lo, hi) =~= d.subrange(lo, hi));
        }
    } else {
        assert(lo == 0);
        assert(hi == v.len());
        assert(v.subrange(0, v.len() as int) =~= v);
    }
}

/// Trim white space from both ends of `v`.
pub fn trim_chars(v: &Vec<char>) -> (r: Vec<char>)
    ensures
        r@ == trimmed(v@),
{
    let len = v.len();
    let mut lo: usize = 0;
    let mut hi: usize = len;
    while lo < hi && is_space(v[lo])
        invariant
            0 <= lo <= hi <= len,
            len == v@.len(),
            forall|k: int| 0 <= k < lo ==> is_space_char(v@[k]),
        decreases hi - lo,
    {
        lo += 1;
    }
    while lo < hi && is_space(v[hi - 1])
        invariant
            0 <= lo <= hi <= len,
            len == v@.len(),
            forall|k: int| 0 <= k < lo ==> is_space_char(v@[k]),
            forall|k: int| hi <= k < len ==> is_space_char(v@[k]),
            lo < hi ==> !is_space_char(v@[lo as int]),
        decreases hi - lo,
    {
        hi -= 1;
    }
    proof {
        lemma_trimmed_is_range(v@, lo as int, hi as int);
    }
    chars_range(v, lo, hi)
}

/// The decimal digit character for `d`.
pub open spec fn digit_char(d: int) -> char {
    (0x30 + d) as u8 as char
}

/// Decimal representation of `n`, without leading zeros.
pub open spec fn dec_digits(n: nat) -> Seq<char>
    decreases n,
{
    if n < 10 {
        seq![digit_char(n as int)]
    } else {
        dec_digits(n / 10) + seq![digit_char((n % 10) as int)]
    }
}

/// Decimal representation of `n`, zero-padded on the left to at least three
/// digits.
pub open spec fn dec_digits_padded3(n: nat) -> Seq<char> {
    if n < 10 {
        seq!['0', '0'] + dec_digits(n)
    } else if n < 100 {
        seq!['0'] + dec_digits(n)
    } else {
        dec_digits(n)
    }
}

/// Append the decimal digits of `n` to `out`.
pub fn push_dec_digits(n: usize, out: &mut Vec<char>)
    ensures
        final(out)@ == old(out)@ + dec_digits(n as nat),
    decreases n,
{
    if n < 10 {
        let d = n as u8;
        out.push((0x30 + d) as char);
        assert(out@ =~= old(out)@ + dec_digits(n as nat));
    } else {
        push_dec_digits(n / 10, out);
        let d = (n % 10) as u8;
        out.push((0x30 + d) as char);
        assert(out@ =~= old(out)@ + dec_digits(n as nat));
    }
}

/// Append the decimal digits of `n`, zero-padded to at least three digits.
pub fn push_dec_digits_padded3(n: usize, out: &mut Vec<char>)
    ensures
        final(out)@ == old(out)@ + dec_digits_padded3(n as nat),
{
    if n < 10 {
        out.push('0');
        out.push('0');
    } else if n < 100 {
        out.push('0');
    }
    push_dec_digits(n, out);
    assert(out@ =~= old(out)@ + dec_digits_padded3(n as nat));
}

} // verus!
