//! Character-level text utilities: substring search, whitespace tokens,
//! line splitting, trimming and decimal parsing, each verified against a
//! spec-level definition over `Seq<char>`.
use vstd::prelude::*;

verus! {

/// The pattern `pat` occurs in `text` starting at position `i`.
pub open spec fn match_at(text: Seq<char>, pat: Seq<char>, i: int) -> bool {
    0 <= i && i + pat.len() <= text.len() && text.subrange(i, i + pat.len()) == pat
}

/// The pattern `pat` occurs somewhere in `text`.
pub open spec fn contains_seq(text: Seq<char>, pat: Seq<char>) -> bool {
    exists|i: int| match_at(text, pat, i)
}

/// Copy the characters of a string slice into a vector, preserving the view.
pub fn str_to_chars(s: &str) -> (r: Vec<char>)
    ensures
        r@ == s@,
{
    let n = s.unicode_len();
    let mut r: Vec<char> = Vec::new();
    let mut i: usize = 0;
    while i < n
        invariant
            n == s@.len(),
            i <= n,
            r@ == s@.subrange(0, i as int),
        decreases n - i,
    {
        r.push(s.get_char(i));
        i = i + 1;
        proof {
            assert(r@ =~= s@.subrange(0, i as int));
        }
    }
    proof {
        assert(r@ =~= s@);
    }
    r
}

/// Whether `pat` matches `text` at position `i`, decided by character comparison.
pub fn matches_at(text: &Vec<char>, pat: &Vec<char>, i: usize) -> (r: bool)
    requires
        i + pat@.len() <= text@.len(),
    ensures
        r == match_at(text@, pat@, i as int),
{
    let n = text.len();
    let m = pat.len();
    let mut j: usize = 0;
    while j < m
        invariant
            n == text@.len(),
            m == pat@.len(),
            i + pat@.len() <= text@.len(),
            j <= pat@.len(),
            forall|k: int| 0 <= k < j ==> text@[i + k] == pat@[k],
        decreases pat@.len() - j,
    {
        if text[i + j] != pat[j] {
            proof {
                assert(text@.subrange(i as int, i + pat@.len())[j as int] != pat@[j as int]);
            }
            return false;
        }
        j = j + 1;
    }
    proof {
        assert(text@.subrange(i as int, i + pat@.len()) =~= pat@);
    }
    true
}

/// Index of the first occurrence of `pat` in `text`, if any.
pub fn find_first(text: &Vec<char>, pat: &Vec<char>) -> (r: Option<usize>)
    ensures
        match r {
            Some(i) => match_at(text@, pat@, i as int) && forall|j: int|
                0 <= j < i ==> !match_at(text@, pat@, j),
            None => !contains_seq(text@, pat@),
        },
{
    if pat.len() > text.len() {
        return None;
    }
    let last = text.len() - pat.len();
    let mut i: usize = 0;
    loop
        invariant
            pat@.len() <= text@.len(),
            last == text@.len() - pat@.len(),
            i <= last,
            forall|j: int| 0 <= j < i ==> !match_at(text@, pat@, j),
        decreases last - i,
    {
        if matches_at(text, pat, i) {
            return Some(i);
        }
        if i == last {
            return None;
        }
        i = i + 1;
    }
}

/// Index of the last occurrence of `pat` in `text`, if any.
pub fn find_last(text: &Vec<char>, pat: &Vec<char>) -> (r: Option<usize>)
    ensures
        match r {
            Some(i) => match_at(text@, pat@, i as int) && forall|j: int|
                i < j ==> !match_at(text@, pat@, j),
            None => !contains_seq(text@, pat@),
        },
{
    if pat.len() > text.len() {
        return None;
    }
    let last = text.len() - pat.len();
    let mut i: usize = last;
    loop
        invariant
            pat@.len() <= text@.len(),
            last == text@.len() - pat@.len(),
            i <= last,
            forall|j: int| i < j ==> !match_at(text@, pat@, j),
        decreases i,
    {
        if matches_at(text, pat, i) {
            return Some(i);
        }
        if i == 0 {
            return None;
        }
        i = i - 1;
    }
}

/// Whether `pat` occurs in `text`.
pub fn contains_sub(text: &Vec<char>, pat: &Vec<char>) -> (r: bool)
    ensures
        r == contains_seq(text@, pat@),
{
    match find_first(text, pat) {
        Some(_) => true,
        None => false,
    }
}

/// A character with the Unicode `White_Space` property, the set that
/// whitespace-delimited token splitting goes by.
pub open spec fn is_ws(c: char) -> bool {
    let u = c as u32;
    u == 0x09 || u == 0x0A || u == 0x0B || u == 0x0C || u == 0x0D || u == 0x20 || u == 0x85
        || u == 0xA0 || u == 0x1680 || (0x2000 <= u && u <= 0x200A) || u == 0x2028 || u == 0x2029
        || u == 0x202F || u == 0x205F || u == 0x3000
}

/// Decide `is_ws` on a character.
pub fn is_ws_char(c: char) -> (r: bool)
    ensures
        r == is_ws(c),
{
    let u = c as u32;
    u == 0x09 || u == 0x0A || u == 0x0B || u == 0x0C || u == 0x0D || u == 0x20 || u == 0x85
        || u == 0xA0 || u == 0x1680 || (0x2000 <= u && u <= 0x200A) || u == 0x2028 || u == 0x2029
        || u == 0x202F || u == 0x205F || u == 0x3000
}

/// Largest position `j' <= j` such that every character in `[j', j)` is whitespace.
pub open spec fn skip_ws_end(s: Seq<char>, j: int) -> int
    decreases j,
{
    if j <= 0 || j > s.len() {
        j
    } else if is_ws(s[j - 1]) {
        skip_ws_end(s, j - 1)
    } else {
        j
    }
}

/// Start of the maximal non-whitespace run that ends at `j`.
pub open spec fn token_start(s: Seq<char>, j: int) -> int
    decreases j,
{
    if j <= 0 || j > s.len() {
        j
    } else if !is_ws(s[j - 1]) {
        token_start(s, j - 1)
    } else {
        j
    }
}

/// The second-to-last whitespace-delimited token of `s`, if `s` has at
/// least two tokens.
pub open spec fn second_last_token(s: Seq<char>) -> Option<Seq<char>> {
    let e2 = skip_ws_end(s, s.len() as int);
    let s2 = token_start(s, e2);
    if e2 == 0 {
        None
    } else {
        let e1 = skip_ws_end(s, s2);
        if e1 == 0 {
            None
        } else {
            let s1 = token_start(s, e1);
            Some(s.subrange(s1, e1))
        }
    }
}

/// Compute `skip_ws_end` on a character vector.
pub fn skip_ws_end_at(cs: &Vec<char>, j: usize) -> (r: usize)
    requires
        j <= cs@.len(),
    ensures
        r == skip_ws_end(cs@, j as int),
        r <= j,
    decreases j,
{
    if j == 0 {
        0
    } else if is_ws_char(cs[j - 1]) {
        skip_ws_end_at(cs, j - 1)
    } else {
        j
    }
}

/// Compute `token_start` on a character vector.
pub fn token_start_at(cs: &Vec<char>, j: usize) -> (r: usize)
    requires
        j <= cs@.len(),
    ensures
        r == token_start(cs@, j as int),
        r <= j,
    decreases j,
{
    if j == 0 {
        0
    } else if !is_ws_char(cs[j - 1]) {
        token_start_at(cs, j - 1)
    } else {
        j
    }
}

/// Bounds of the second-to-last whitespace-delimited token.
pub fn second_last_token_range(cs: &Vec<char>) -> (r: Option<(usize, usize)>)
    ensures
        match r {
            Some((a, b)) => a <= b <= cs@.len() && second_last_token(cs@) == Some(
                cs@.subrange(a as int, b as int),
            ),
            None => second_last_token(cs@) is None,
        },
{
    let e2 = skip_ws_end_at(cs, cs.len());
    if e2 == 0 {
        return None;
    }
    let s2 = token_start_at(cs, e2);
    let e1 = skip_ws_end_at(cs, s2);
    if e1 == 0 {
        return None;
    }
    let s1 = token_start_at(cs, e1);
    Some((s1, e1))
}

/// The token with one trailing `%` removed, if one is there.
pub open spec fn strip_percent(t: Seq<char>) -> Seq<char> {
    if t.len() > 0 && t.last() == '%' {
        t.drop_last()
    } else {
        t
    }
}

/// An ASCII decimal digit.
pub open spec fn is_digit(c: char) -> bool {
    0x30 <= c as u32 <= 0x39
}

/// The numeric value of an ASCII digit.
pub open spec fn digit_val(c: char) -> int {
    c as u32 - 0x30
}

/// Every character of `s` is an ASCII decimal digit.
pub open spec fn all_digits(s: Seq<char>) -> bool {
    forall|i: int| 0 <= i < s.len() ==> is_digit(#[trigger] s[i])
}

/// The value of a digit string read in base ten.
pub open spec fn dec_val(s: Seq<char>) -> int
    decreases s.len(),
{
    if s.len() == 0 {
        0
    } else {
        dec_val(s.drop_last()) * 10 + digit_val(s.last())
    }
}

/// What parsing a decimal unsigned integer yields: a value exactly when the
/// string is non-empty and all digits.
pub open spec fn parse_uint(s: Seq<char>) -> Option<int> {
    if s.len() > 0 && all_digits(s) {
        Some(dec_val(s))
    } else {
        None
    }
}

proof fn lemma_dec_val_nonneg(s: Seq<char>)
    requires
        all_digits(s),
    ensures
        dec_val(s) >= 0,
    decreases s.len(),
{
    if s.len() > 0 {
        assert(all_digits(s.drop_last())) by {
            assert(forall|i: int|
                0 <= i < s.drop_last().len() ==> s.drop_last()[i] == #[trigger] s[i]);
        }
        lemma_dec_val_nonneg(s.drop_last());
    }
}

/// A digit-string prefix never exceeds the value of the whole string.
proof fn lemma_dec_val_prefix_le(s: Seq<char>, k: int)
    requires
        all_digits(s),
        0 <= k <= s.len(),
    ensures
        dec_val(s.subrange(0, k)) <= dec_val(s),
    decreases s.len() - k,
{
    if k == s.len() {
        assert(s.subrange(0, k) =~= s);
    } else {
        let p = s.subrange(0, k + 1);
        assert(p.drop_last() =~= s.subrange(0, k));
        assert(all_digits(p)) by {
            assert(forall|i: int| 0 <= i < p.len() ==> p[i] == #[trigger] s[i]);
        }
        lemma_dec_val_nonneg(p.drop_last());
        assert(dec_val(p.drop_last()) * 10 >= dec_val(p.drop_last()));
        assert(dec_val(s.subrange(0, k)) <= dec_val(p));
        lemma_dec_val_prefix_le(s, k + 1);
    }
}

/// Parse the characters in `[lo, hi)` as a decimal `u32`, exactly as
/// `parse_uint` says, rejecting values above `u32::MAX`.
pub fn parse_u32_range(cs: &Vec<char>, lo: usize, hi: usize) -> (r: Option<u32>)
    requires
        lo <= hi <= cs@.len(),
    ensures
        ({
            let t = cs@.subrange(lo as int, hi as int);
            match parse_uint(t) {
                Some(n) => 0 <= n && if n <= u32::MAX { r == Some(n as u32) } else { r is None },
                None => r is None,
            }
        }),
{
    let ghost t = cs@.subrange(lo as int, hi as int);
    if lo == hi {
        return None;
    }
    let mut i: usize = lo;
    while i < hi
        invariant
            lo <= i <= hi <= cs@.len(),
            t == cs@.subrange(lo as int, hi as int),
            forall|k: int| 0 <= k < i - lo ==> is_digit(#[trigger] t[k]),
        decreases hi - i,
    {
        let c = cs[i];
        let u = c as u32;
        if !(0x30 <= u && u <= 0x39) {
            proof {
                assert(t[i - lo] == cs@[i as int]);
                assert(!is_digit(t[i - lo]));
            }
            return None;
        }
        proof {
            assert(t[i - lo] == cs@[i as int]);
        }
        i = i + 1;
    }
    proof {
        assert(all_digits(t));
        lemma_dec_val_nonneg(t);
    }
    let mut acc: u64 = 0;
    let mut j: usize = lo;
    while j < hi
        invariant
            lo <= j <= hi <= cs@.len(),
            t == cs@.subrange(lo as int, hi as int),
            all_digits(t),
            acc <= u32::MAX,
            acc == dec_val(t.subrange(0, j - lo)),
        decreases hi - j,
    {
        proof {
            assert(t[j - lo] == cs@[j as int]);
            assert(is_digit(t[j - lo]));
            assert(t.subrange(0, j + 1 - lo).drop_last() =~= t.subrange(0, j - lo));
            assert(t.subrange(0, j + 1 - lo).last() == t[j - lo]);
        }
        let d = (cs[j] as u32) - 0x30;
        let next = acc * 10 + (d as u64);
        if next > u32::MAX as u64 {
            proof {
                lemma_dec_val_nonneg(t);
                lemma_dec_val_prefix_le(t, j + 1 - lo);
            }
            return None;
        }
        acc = next;
        j = j + 1;
    }
    proof {
        assert(t.subrange(0, hi - lo) =~= t);
    }
    Some(acc as u32)
}

/// The first position at or after `i` where `pat` occurs in `text`.
pub open spec fn first_occ_from(text: Seq<char>, pat: Seq<char>, i: int) -> Option<int>
    decreases text.len() - i when 0 <= i
{
    if i + pat.len() > text.len() {
        None
    } else if match_at(text, pat, i) {
        Some(i)
    } else if i >= text.len() {
        None
    } else {
        first_occ_from(text, pat, i + 1)
    }
}

/// The position of the first occurrence of `pat` in `text`.
pub open spec fn first_occ(text: Seq<char>, pat: Seq<char>) -> Option<int> {
    first_occ_from(text, pat, 0)
}

proof fn lemma_first_occ_from_some(text: Seq<char>, pat: Seq<char>, lo: int, i: int)
    requires
        0 <= lo <= i,
        match_at(text, pat, i),
        forall|j: int| lo <= j < i ==> !match_at(text, pat, j),
    ensures
        first_occ_from(text, pat, lo) == Some(i),
    decreases i - lo,
{
    if lo < i {
        lemma_first_occ_from_some(text, pat, lo + 1, i);
    }
}

proof fn lemma_first_occ_from_none(text: Seq<char>, pat: Seq<char>, lo: int)
    requires
        0 <= lo,
        forall|j: int| !match_at(text, pat, j),
    ensures
        first_occ_from(text, pat, lo) is None,
    decreases text.len() - lo,
{
    if !(lo + pat.len() > text.len()) && lo < text.len() {
        lemma_first_occ_from_none(text, pat, lo + 1);
    }
}

/// `first_occ` named by a witness: a match with none before it is the first.
pub proof fn lemma_first_occ_some(text: Seq<char>, pat: Seq<char>, i: int)
    requires
        match_at(text, pat, i),
        forall|j: int| 0 <= j < i ==> !match_at(text, pat, j),
    ensures
        first_occ(text, pat) == Some(i),
{
    lemma_first_occ_from_some(text, pat, 0, i);
}

/// Where nothing matches, `first_occ` finds nothing.
pub proof fn lemma_first_occ_none(text: Seq<char>, pat: Seq<char>)
    requires
        forall|j: int| !match_at(text, pat, j),
    ensures
        first_occ(text, pat) is None,
{
    lemma_first_occ_from_none(text, pat, 0);
}

/// The last position at or before `i` where `pat` occurs in `text`.
pub open spec fn last_occ_from(text: Seq<char>, pat: Seq<char>, i: int) -> Option<int>
    decreases i + 1,
{
    if i < 0 {
        None
    } else if match_at(text, pat, i) {
        Some(i)
    } else {
        last_occ_from(text, pat, i - 1)
    }
}

/// The position of the last occurrence of `pat` in `text`.
pub open spec fn last_occ(text: Seq<char>, pat: Seq<char>) -> Option<int> {
    last_occ_from(text, pat, text.len() - pat.len())
}

proof fn lemma_last_occ_from_some(text: Seq<char>, pat: Seq<char>, hi: int, i: int)
    requires
        i <= hi,
        match_at(text, pat, i),
        forall|j: int| i < j <= hi ==> !match_at(text, pat, j),
    ensures
        last_occ_from(text, pat, hi) == Some(i),
    decreases hi - i,
{
    if i < hi {
        lemma_last_occ_from_some(text, pat, hi - 1, i);
    }
}

proof fn lemma_last_occ_from_none(text: Seq<char>, pat: Seq<char>, hi: int)
    requires
        forall|j: int| !match_at(text, pat, j),
    ensures
        last_occ_from(text, pat, hi) is None,
    decreases hi + 1,
{
    if hi >= 0 {
        lemma_last_occ_from_none(text, pat, hi - 1);
    }
}

/// `last_occ` named by a witness: a match with none after it is the last.
pub proof fn lemma_last_occ_some(text: Seq<char>, pat: Seq<char>, i: int)
    requires
        match_at(text, pat, i),
        forall|j: int| i < j ==> !match_at(text, pat, j),
    ensures
        last_occ(text, pat) == Some(i),
{
    lemma_last_occ_from_some(text, pat, text.len() - pat.len(), i);
}

/// Where nothing matches, `last_occ` finds nothing.
pub proof fn lemma_last_occ_none(text: Seq<char>, pat: Seq<char>)
    requires
        forall|j: int| !match_at(text, pat, j),
    ensures
        last_occ(text, pat) is None,
{
    lemma_last_occ_from_none(text, pat, text.len() - pat.len());
}

/// The index of the last occurrence of the character `c` in `s`, or -1.
pub open spec fn last_index_of(s: Seq<char>, c: char) -> int
    decreases s.len(),
{
    if s.len() == 0 {
        -1
    } else if s.last() == c {
        s.len() - 1
    } else {
        last_index_of(s.drop_last(), c)
    }
}

/// Compute `last_index_of` over the prefix `[0, j)` of a character vector.
pub fn last_index_of_char(cs: &Vec<char>, j: usize, c: char) -> (r: Option<usize>)
    requires
        j <= cs@.len(),
    ensures
        match r {
            Some(i) => i < j && last_index_of(cs@.subrange(0, j as int), c) == i,
            None => last_index_of(cs@.subrange(0, j as int), c) == -1,
        },
    decreases j,
{
    if j == 0 {
        proof {
            assert(cs@.subrange(0, 0) =~= Seq::<char>::empty());
        }
        None
    } else if cs[j - 1] == c {
        proof {
            assert(cs@.subrange(0, j as int).last() == cs@[j - 1]);
        }
        Some(j - 1)
    } else {
        proof {
            assert(cs@.subrange(0, j as int).last() == cs@[j - 1]);
            assert(cs@.subrange(0, j as int).drop_last() =~= cs@.subrange(0, j - 1));
        }
        last_index_of_char(cs, j - 1, c)
    }
}

/// Position of the first line feed at or after `i`, or the end of `s`.
pub open spec fn line_end(s: Seq<char>, i: int) -> int
    decreases s.len() - i when 0 <= i <= s.len()
{
    if i >= s.len() || s[i] == '\n' {
        i
    } else {
        line_end(s, i + 1)
    }
}

pub proof fn lemma_line_end(s: Seq<char>, i: int)
    requires
        0 <= i <= s.len(),
    ensures
        i <= line_end(s, i) <= s.len(),
        line_end(s, i) < s.len() ==> s[line_end(s, i)] == '\n',
    decreases s.len() - i,
{
    if !(i >= s.len() || s[i] == '\n') {
        lemma_line_end(s, i + 1);
    }
}

/// A line with one trailing carriage return removed, as line splitting strips it.
pub open spec fn strip_cr(l: Seq<char>) -> Seq<char> {
    if l.len() > 0 && l.last() == '\r' {
        l.drop_last()
    } else {
        l
    }
}

/// The lines of `s` from position `i` on: split at line feeds, each line
/// with a trailing carriage return stripped, no empty line after a final
/// line feed.
pub open spec fn lines_from(s: Seq<char>, i: int) -> Seq<Seq<char>>
    decreases s.len() - i when 0 <= i <= s.len() via lines_from_dec
{
    if i >= s.len() {
        Seq::empty()
    } else {
        let e = line_end(s, i);
        seq![strip_cr(s.subrange(i, e))] + (if e < s.len() {
            lines_from(s, e + 1)
        } else {
            Seq::empty()
        })
    }
}

#[via_fn]
proof fn lines_from_dec(s: Seq<char>, i: int) {
    if 0 <= i && i < s.len() {
        lemma_line_end(s, i);
    }
}

/// `s` ends with the suffix `suf`.
pub open spec fn ends_with(s: Seq<char>, suf: Seq<char>) -> bool {
    s.len() >= suf.len() && s.subrange(s.len() - suf.len(), s.len() as int) == suf
}

/// The first of the lines that ends with `suf`, if any does.
pub open spec fn first_line_ending_with(ls: Seq<Seq<char>>, suf: Seq<char>) -> Option<Seq<char>>
    decreases ls.len(),
{
    if ls.len() == 0 {
        None
    } else if ends_with(ls[0], suf) {
        Some(ls[0])
    } else {
        first_line_ending_with(ls.drop_first(), suf)
    }
}

/// First position at or after `i` holding a non-whitespace character.
pub open spec fn trim_start_idx(s: Seq<char>, i: int) -> int
    decreases s.len() - i when 0 <= i <= s.len()
{
    if i >= s.len() || !is_ws(s[i]) {
        i
    } else {
        trim_start_idx(s, i + 1)
    }
}

/// `s` with leading and trailing whitespace removed.
pub open spec fn trim_ws(s: Seq<char>) -> Seq<char> {
    let a = trim_start_idx(s, 0);
    let b = skip_ws_end(s, s.len() as int);
    if a <= b {
        s.subrange(a, b)
    } else {
        Seq::empty()
    }
}

/// What `trim_start_idx` finds: whitespace up to it, a non-whitespace
/// character (or the end) at it.
pub proof fn lemma_trim_start_idx(s: Seq<char>, i: int)
    requires
        0 <= i <= s.len(),
    ensures
        i <= trim_start_idx(s, i) <= s.len(),
        forall|k: int| i <= k < trim_start_idx(s, i) ==> is_ws(#[trigger] s[k]),
        trim_start_idx(s, i) < s.len() ==> !is_ws(s[trim_start_idx(s, i)]),
    decreases s.len() - i,
{
    if !(i >= s.len() || !is_ws(s[i])) {
        lemma_trim_start_idx(s, i + 1);
    }
}

/// What `skip_ws_end` finds: whitespace from it on, a non-whitespace
/// character (or the start) just before it.
pub proof fn lemma_skip_ws_end(s: Seq<char>, j: int)
    requires
        0 <= j <= s.len(),
    ensures
        0 <= skip_ws_end(s, j) <= j,
        forall|k: int| skip_ws_end(s, j) <= k < j ==> is_ws(#[trigger] s[k]),
        skip_ws_end(s, j) > 0 ==> !is_ws(s[skip_ws_end(s, j) - 1]),
    decreases j,
{
    if !(j <= 0) && is_ws(s[j - 1]) {
        lemma_skip_ws_end(s, j - 1);
    }
}

/// Trimming is idempotent: a trimmed string has no surrounding whitespace
/// left to remove.
pub proof fn lemma_trim_ws_idempotent(s: Seq<char>)
    ensures
        trim_ws(trim_ws(s)) == trim_ws(s),
{
    lemma_trim_start_idx(s, 0);
    lemma_skip_ws_end(s, s.len() as int);
    let t = trim_ws(s);
    if t.len() == 0 {
        assert(trim_ws(t) =~= t);
    } else {
        let a = trim_start_idx(s, 0);
        let b = skip_ws_end(s, s.len() as int);
        assert(t[0] == s[a]);
        assert(!is_ws(t[0]));
        assert(trim_start_idx(t, 0) == 0);
        assert(t.last() == s[b - 1]);
        assert(!is_ws(t.last()));
        assert(skip_ws_end(t, t.len() as int) == t.len());
        assert(trim_ws(t) =~= t);
    }
}

/// Compute `line_end` on a character vector.
pub fn line_end_at(cs: &Vec<char>, i: usize) -> (r: usize)
    requires
        i <= cs@.len(),
    ensures
        r == line_end(cs@, i as int),
        i <= r <= cs@.len(),
    decreases cs@.len() - i,
{
    if i >= cs.len() || cs[i] == '\n' {
        i
    } else {
        line_end_at(cs, i + 1)
    }
}

/// Bounds of the first line of `cs` that ends with `suf`, if one does.
pub fn find_line_ending_with(cs: &Vec<char>, suf: &Vec<char>) -> (r: Option<(usize, usize)>)
    ensures
        match r {
            Some((p, q)) => p <= q <= cs@.len() && first_line_ending_with(
                lines_from(cs@, 0),
                suf@,
            ) == Some(cs@.subrange(p as int, q as int)) && ends_with(
                cs@.subrange(p as int, q as int),
                suf@,
            ),
            None => first_line_ending_with(lines_from(cs@, 0), suf@) is None,
        },
{
    let n = cs.len();
    let mut i: usize = 0;
    loop
        invariant
            i <= n,
            n == cs@.len(),
            first_line_ending_with(lines_from(cs@, 0), suf@) == first_line_ending_with(
                lines_from(cs@, i as int),
                suf@,
            ),
        decreases n - i,
    {
        if i >= n {
            return None;
        }
        let e = line_end_at(cs, i);
        proof {
            lemma_line_end(cs@, i as int);
        }
        let e2 = if e > i && cs[e - 1] == '\r' {
            e - 1
        } else {
            e
        };
        let ghost line = strip_cr(cs@.subrange(i as int, e as int));
        proof {
            if e > i && cs@[e - 1] == '\r' {
                assert(cs@.subrange(i as int, e as int).last() == cs@[e - 1]);
                assert(cs@.subrange(i as int, e as int).drop_last() =~= cs@.subrange(
                    i as int,
                    e - 1,
                ));
            }
            assert(line =~= cs@.subrange(i as int, e2 as int));
        }
        let matched = if e2 - i >= suf.len() {
            let m = matches_at(cs, suf, e2 - suf.len());
            proof {
                assert(line.subrange(line.len() - suf@.len(), line.len() as int) =~= cs@.subrange(
                    e2 - suf@.len(),
                    e2 as int,
                ));
                assert(cs@.subrange(e2 - suf@.len(), e2 - suf@.len() + suf@.len()) =~= cs@.subrange(
                    e2 - suf@.len(),
                    e2 as int,
                ));
            }
            m
        } else {
            false
        };
        proof {
            assert(matched == ends_with(line, suf@));
            assert(lines_from(cs@, i as int) == seq![line] + (if e < n {
                lines_from(cs@, e + 1)
            } else {
                Seq::<Seq<char>>::empty()
            }));
        }
        if matched {
            proof {
                let ls = lines_from(cs@, i as int);
                assert(ls.len() > 0 && ls[0] == line);
                assert(first_line_ending_with(ls, suf@) == Some(line));
            }
            return Some((i, e2));
        }
        if e >= n {
            proof {
                let ls = lines_from(cs@, i as int);
                assert(ls.len() > 0 && ls[0] == line);
                assert(ls.drop_first() =~= Seq::<Seq<char>>::empty());
                assert(first_line_ending_with(Seq::<Seq<char>>::empty(), suf@) is None);
                assert(first_line_ending_with(ls, suf@) is None);
            }
            return None;
        }
        proof {
            let ls = lines_from(cs@, i as int);
            assert(ls.len() > 0 && ls[0] == line);
            assert(ls.drop_first() =~= lines_from(cs@, e + 1));
            assert(first_line_ending_with(ls, suf@) == first_line_ending_with(
                lines_from(cs@, e + 1),
                suf@,
            ));
        }
        i = e + 1;
    }
}

/// Compute `trim_start_idx` on a character vector.
pub fn trim_start_at(cs: &Vec<char>, i: usize) -> (r: usize)
    requires
        i <= cs@.len(),
    ensures
        r == trim_start_idx(cs@, i as int),
        i <= r <= cs@.len(),
    decreases cs@.len() - i,
{
    if i >= cs.len() || !is_ws_char(cs[i]) {
        i
    } else {
        trim_start_at(cs, i + 1)
    }
}

/// Relies on `String::push`: it appends the given character to the end of
/// the string, as its documentation states.
pub assume_specification[ String::push ](s: &mut String, c: char)
    ensures
        final(s)@ == old(s)@.push(c),
;

/// Append one character to a string.
pub fn push_char(s: &mut String, c: char)
    ensures
        final(s)@ == old(s)@ + seq![c],
{
    s.push(c);
    proof {
        assert(s@ =~= old(s)@ + seq![c]);
    }
}

/// Character-for-character equality of two string slices.
pub fn str_equal(a: &str, b: &str) -> (r: bool)
    ensures
        r == (a@ == b@),
{
    let ca = str_to_chars(a);
    let cb = str_to_chars(b);
    if ca.len() != cb.len() {
        return false;
    }
    let n = ca.len();
    let mut i: usize = 0;
    while i < n
        invariant
            n == ca@.len() == cb@.len(),
            ca@ == a@,
            cb@ == b@,
            i <= n,
            forall|k: int| 0 <= k < i ==> ca@[k] == cb@[k],
        decreases n - i,
    {
        if ca[i] != cb[i] {
            return false;
        }
        i = i + 1;
    }
    proof {
        assert(a@ =~= b@);
    }
    true
}

} // verus!
