//! Character-level helpers shared by the Makefile reader, the compatible-string
//! scanner and the C-source scanner.
//!
//! Exec code works on `&str` and `Vec<char>`; every helper is specified against
//! the `Seq<char>` view of its input.

use vstd::prelude::*;
use vstd::std_specs::iter::IteratorSpec;

verus! {

/// Whitespace as the line parsers understand it.
pub open spec fn is_space_char(c: char) -> bool {
    c == ' ' || c == '\t' || c == '\r' || c == '\n' || c == '\u{b}' || c == '\u{c}'
}

/// Characters allowed in a configuration-option name.
pub open spec fn is_word_char(c: char) -> bool {
    ('a' as u32) <= (c as u32) && (c as u32) <= ('z' as u32) || ('A' as u32) <= (c as u32) && (c
        as u32) <= ('Z' as u32) || ('0' as u32) <= (c as u32) && (c as u32) <= ('9' as u32) || c
        == '_'
}

/// Characters allowed in a Makefile element (object target or subdirectory).
pub open spec fn is_elem_char(c: char) -> bool {
    is_word_char(c) || c == '-' || c == '.' || c == '/'
}

pub fn space_char(c: char) -> (r: bool)
    ensures
        r == is_space_char(c),
{
    c == ' ' || c == '\t' || c == '\r' || c == '\n' || c == '\u{b}' || c == '\u{c}'
}

pub fn word_char(c: char) -> (r: bool)
    ensures
        r == is_word_char(c),
{
    let u = c as u32;
    ('a' as u32) <= u && u <= ('z' as u32) || ('A' as u32) <= u && u <= ('Z' as u32) || ('0'
        as u32) <= u && u <= ('9' as u32) || c == '_'
}

pub fn elem_char(c: char) -> (r: bool)
    ensures
        r == is_elem_char(c),
{
    word_char(c) || c == '-' || c == '.' || c == '/'
}

/// The characters of `s`, in order.
pub fn chars_of(s: &str) -> (r: Vec<char>)
    ensures
        r@ == s@,
{
    broadcast use vstd::string::axiom_spec_iter, vstd::string::next_postcondition;

    let mut it = s.chars();
    let mut r: Vec<char> = Vec::new();
    loop
        invariant
            it.obeys_prophetic_iter_laws(),
            it.decrease() is Some,
            r@ + it.remaining() == s@,
        decreases it.decrease()->0,
    {
        match it.next() {
            Some(c) => {
                r.push(c);
                proof {
                    assert(r@ + it.remaining() =~= s@);
                }
            },
            None => {
                proof {
                    assert(r@ =~= s@);
                }
                return r;
            },
        }
    }
}

/// Whether two string slices hold the same characters.
pub fn str_eq(a: &str, b: &str) -> (r: bool)
    ensures
        r == (a@ == b@),
{
    let sa = a.to_owned();
    let sb = b.to_owned();
    sa == sb
}

/// The substring of `s` covering the character range `[a, b)`, as an owned string.
pub fn sub_string(s: &str, a: usize, b: usize) -> (r: String)
    requires
        a <= b <= s@.len(),
    ensures
        r@ == s@.subrange(a as int, b as int),
{
    let piece = s.substring_char(a, b);
    piece.to_owned()
}

/// First index `>= i` (and `< hi`) holding `c`, if any.
pub open spec fn find_char_from(s: Seq<char>, c: char, i: int, hi: int) -> Option<int>
    decreases hi - i,
{
    if i < 0 || i >= hi || hi > s.len() {
        None
    } else if s[i] == c {
        Some(i)
    } else {
        find_char_from(s, c, i + 1, hi)
    }
}

pub fn find_char_in(cs: &Vec<char>, c: char, from: usize, hi: usize) -> (r: Option<usize>)
    requires
        hi <= cs@.len(),
    ensures
        match r {
            Some(k) => Some(k as int) == find_char_from(cs@, c, from as int, hi as int) && from
                <= k < hi && cs@[k as int] == c,
            None => find_char_from(cs@, c, from as int, hi as int) is None,
        },
{
    let mut i = from;
    while i < hi
        invariant
            hi <= cs@.len(),
            from <= i,
            find_char_from(cs@, c, from as int, hi as int) == find_char_from(
                cs@,
                c,
                i as int,
                hi as int,
            ),
        decreases hi - i,
    {
        if cs[i] == c {
            return Some(i);
        }
        i = i + 1;
    }
    None
}

/// Whether `pat` occurs in `s` starting at index `i`.
pub open spec fn matches_at(s: Seq<char>, pat: Seq<char>, i: int) -> bool {
    0 <= i && i + pat.len() <= s.len() && s.subrange(i, i + pat.len()) == pat
}

pub fn range_matches(cs: &Vec<char>, i: usize, pat: &Vec<char>) -> (r: bool)
    ensures
        r == matches_at(cs@, pat@, i as int),
{
    let n = cs.len();
    if pat.len() > n || i > n - pat.len() {
        return false;
    }
    let mut j: usize = 0;
    while j < pat.len()
        invariant
            n == cs@.len(),
            i + pat@.len() <= cs@.len(),
            j <= pat@.len(),
            forall|k: int| 0 <= k < j ==> cs@[i + k] == pat@[k],
        decreases pat@.len() - j,
    {
        if cs[i + j] != pat[j] {
            assert(cs@.subrange(i as int, i + pat@.len())[j as int] != pat@[j as int]);
            return false;
        }
        j = j + 1;
    }
    proof {
        assert(cs@.subrange(i as int, i + pat@.len()) =~= pat@);
    }
    true
}

/// First index `>= i` where `pat` occurs in `s`, if any.
pub open spec fn find_seq_from(s: Seq<char>, pat: Seq<char>, i: int) -> Option<int>
    decreases s.len() - i,
{
    if !(0 <= i && i + pat.len() <= s.len()) {
        None
    } else if matches_at(s, pat, i) {
        Some(i)
    } else if i + 1 + pat.len() <= s.len() {
        find_seq_from(s, pat, i + 1)
    } else {
        None
    }
}

pub fn find_seq_in(cs: &Vec<char>, pat: &Vec<char>, from: usize) -> (r: Option<usize>)
    ensures
        match r {
            Some(k) => Some(k as int) == find_seq_from(cs@, pat@, from as int) && from <= k && k
                + pat@.len() <= cs@.len() && matches_at(cs@, pat@, k as int),
            None => find_seq_from(cs@, pat@, from as int) is None,
        },
{
    let n = cs.len();
    if pat.len() > n {
        return None;
    }
    let last = n - pat.len();
    let mut i = from;
    while i <= last
        invariant
            n == cs@.len(),
            pat@.len() + last == cs@.len(),
            from <= i,
            find_seq_from(cs@, pat@, from as int) == find_seq_from(cs@, pat@, i as int),
        decreases last + 1 - i,
    {
        if range_matches(cs, i, pat) {
            return Some(i);
        }
        proof {
            if pat@.len() == 0 {
                assert(cs@.subrange(i as int, i as int) =~= pat@);
            }
        }
        i = i + 1;
    }
    None
}

/// Index of the first non-space character in `[i, hi)`, or `hi`.
pub open spec fn lskip_spaces(s: Seq<char>, i: int, hi: int) -> int
    decreases hi - i,
{
    if 0 <= i < hi && hi <= s.len() && is_space_char(s[i]) {
        lskip_spaces(s, i + 1, hi)
    } else {
        i
    }
}

pub fn lskip_spaces_in(cs: &Vec<char>, from: usize, hi: usize) -> (r: usize)
    requires
        from <= hi <= cs@.len(),
    ensures
        r == lskip_spaces(cs@, from as int, hi as int),
        from <= r <= hi,
{
    let mut i = from;
    while i < hi && space_char(cs[i])
        invariant
            from <= i <= hi <= cs@.len(),
            lskip_spaces(cs@, from as int, hi as int) == lskip_spaces(cs@, i as int, hi as int),
        decreases hi - i,
    {
        i = i + 1;
    }
    i
}

/// One past the last non-space character in `[lo, i)`, or `lo`.
pub open spec fn rskip_spaces(s: Seq<char>, lo: int, i: int) -> int
    decreases i - lo,
{
    if 0 <= lo < i && i <= s.len() && is_space_char(s[i - 1]) {
        rskip_spaces(s, lo, i - 1)
    } else {
        i
    }
}

pub fn rskip_spaces_in(cs: &Vec<char>, lo: usize, hi: usize) -> (r: usize)
    requires
        lo <= hi <= cs@.len(),
    ensures
        r == rskip_spaces(cs@, lo as int, hi as int),
        lo <= r <= hi,
{
    let mut i = hi;
    while i > lo && space_char(cs[i - 1])
        invariant
            lo <= i <= hi <= cs@.len(),
            rskip_spaces(cs@, lo as int, hi as int) == rskip_spaces(cs@, lo as int, i as int),
        decreases i,
    {
        i = i - 1;
    }
    i
}

/// The view of `s` with surrounding whitespace removed.
pub open spec fn trimmed(s: Seq<char>) -> Seq<char> {
    let a = lskip_spaces(s, 0, s.len() as int);
    let b = rskip_spaces(s, a, s.len() as int);
    s.subrange(a, b)
}

/// First index `>= i` holding whitespace, or `s.len()`.
pub open spec fn find_space(s: Seq<char>, i: int) -> int
    decreases s.len() - i,
{
    if 0 <= i < s.len() {
        if is_space_char(s[i]) {
            i
        } else {
            find_space(s, i + 1)
        }
    } else {
        s.len() as int
    }
}

pub fn find_space_in(cs: &Vec<char>, from: usize) -> (r: usize)
    requires
        from <= cs@.len(),
    ensures
        r == find_space(cs@, from as int),
        from <= r <= cs@.len(),
{
    let n = cs.len();
    let mut i = from;
    while i < n
        invariant
            n == cs@.len(),
            from <= i <= n,
            find_space(cs@, from as int) == find_space(cs@, i as int),
        decreases n - i,
    {
        if space_char(cs[i]) {
            return i;
        }
        i = i + 1;
    }
    i
}

/// One past the last trailing run of `c` within `[lo, i)`.
pub open spec fn rskip_char(s: Seq<char>, lo: int, i: int, c: char) -> int
    decreases i - lo,
{
    if 0 <= lo < i && i <= s.len() && s[i - 1] == c {
        rskip_char(s, lo, i - 1, c)
    } else {
        i
    }
}

pub fn rskip_char_in(cs: &Vec<char>, lo: usize, hi: usize, c: char) -> (r: usize)
    requires
        lo <= hi <= cs@.len(),
    ensures
        r == rskip_char(cs@, lo as int, hi as int, c),
        lo <= r <= hi,
{
    let mut i = hi;
    while i > lo && cs[i - 1] == c
        invariant
            lo <= i <= hi <= cs@.len(),
            rskip_char(cs@, lo as int, hi as int, c) == rskip_char(cs@, lo as int, i as int, c),
        decreases i,
    {
        i = i - 1;
    }
    i
}

/// Trailing padding allowed after a Makefile variable key.
pub open spec fn is_key_pad(c: char) -> bool {
    c == '+' || c == ':' || c == '?' || is_space_char(c)
}

/// One past the last trailing run of key padding within `[lo, i)`.
pub open spec fn rskip_keypad(s: Seq<char>, lo: int, i: int) -> int
    decreases i - lo,
{
    if 0 <= lo < i && i <= s.len() && is_key_pad(s[i - 1]) {
        rskip_keypad(s, lo, i - 1)
    } else {
        i
    }
}

pub fn rskip_keypad_in(cs: &Vec<char>, lo: usize, hi: usize) -> (r: usize)
    requires
        lo <= hi <= cs@.len(),
    ensures
        r == rskip_keypad(cs@, lo as int, hi as int),
        lo <= r <= hi,
{
    let mut i = hi;
    while i > lo && key_pad_char(cs[i - 1])
        invariant
            lo <= i <= hi <= cs@.len(),
            rskip_keypad(cs@, lo as int, hi as int) == rskip_keypad(cs@, lo as int, i as int),
        decreases i,
    {
        i = i - 1;
    }
    i
}

pub fn key_pad_char(c: char) -> (r: bool)
    ensures
        r == is_key_pad(c),
{
    c == '+' || c == ':' || c == '?' || space_char(c)
}

/// Every character of `s` in `[a, b)` is a word character.
pub open spec fn all_word_chars(s: Seq<char>, a: int, b: int) -> bool {
    forall|u: int| a <= u < b ==> is_word_char(s[u])
}

pub fn range_all_word(cs: &Vec<char>, a: usize, b: usize) -> (r: bool)
    requires
        a <= b <= cs@.len(),
    ensures
        r == all_word_chars(cs@, a as int, b as int),
{
    let mut i = a;
    while i < b
        invariant
            a <= i <= b <= cs@.len(),
            forall|u: int| a <= u < i ==> is_word_char(cs@[u]),
        decreases b - i,
    {
        if !word_char(cs[i]) {
            return false;
        }
        i = i + 1;
    }
    true
}

/// Every character of `s` in `[a, b)` is an element character.
pub open spec fn all_elem_chars(s: Seq<char>, a: int, b: int) -> bool {
    forall|u: int| a <= u < b ==> is_elem_char(s[u])
}

pub fn range_all_elem(cs: &Vec<char>, a: usize, b: usize) -> (r: bool)
    requires
        a <= b <= cs@.len(),
    ensures
        r == all_elem_chars(cs@, a as int, b as int),
{
    let mut i = a;
    while i < b
        invariant
            a <= i <= b <= cs@.len(),
            forall|u: int| a <= u < i ==> is_elem_char(cs@[u]),
        decreases b - i,
    {
        if !elem_char(cs[i]) {
            return false;
        }
        i = i + 1;
    }
    true
}

/// The characters of `cs` in `[a, b)`, as a fresh vector.
pub fn sub_chars(cs: &Vec<char>, a: usize, b: usize) -> (r: Vec<char>)
    requires
        a <= b <= cs@.len(),
    ensures
        r@ == cs@.subrange(a as int, b as int),
{
    let mut r: Vec<char> = Vec::new();
    let mut i = a;
    while i < b
        invariant
            a <= i <= b <= cs@.len(),
            r@ == cs@.subrange(a as int, i as int),
        decreases b - i,
    {
        r.push(cs[i]);
        proof {
            assert(cs@.subrange(a as int, i + 1) =~= cs@.subrange(a as int, i as int).push(
                cs@[i as int],
            ));
        }
        i = i + 1;
    }
    r
}

pub broadcast proof fn lemma_find_char_from_bounds(s: Seq<char>, c: char, i: int, hi: int)
    ensures
        (#[trigger] find_char_from(s, c, i, hi)) matches Some(k) ==> i <= k < hi && hi <= s.len()
            && s[k] == c,
    decreases hi - i,
{
    if 0 <= i && i < hi && hi <= s.len() && s[i] != c {
        lemma_find_char_from_bounds(s, c, i + 1, hi);
    }
}

pub broadcast proof fn lemma_find_seq_from_bounds(s: Seq<char>, pat: Seq<char>, i: int)
    ensures
        (#[trigger] find_seq_from(s, pat, i)) matches Some(k) ==> i <= k && k + pat.len() <= s.len()
            && matches_at(s, pat, k),
    decreases s.len() - i,
{
    if 0 <= i && i + pat.len() <= s.len() && !matches_at(s, pat, i) && i + 1 + pat.len()
        <= s.len() {
        lemma_find_seq_from_bounds(s, pat, i + 1);
    }
}

pub broadcast proof fn lemma_find_space_bounds(s: Seq<char>, i: int)
    ensures
        0 <= i <= s.len() ==> i <= #[trigger] find_space(s, i) <= s.len(),
    decreases s.len() - i,
{
    if 0 <= i < s.len() && !is_space_char(s[i]) {
        lemma_find_space_bounds(s, i + 1);
    }
}

/// Last index `< i` holding `c`, if any.
pub open spec fn rfind_char(s: Seq<char>, c: char, i: int) -> Option<int>
    decreases i,
{
    if i <= 0 || i > s.len() {
        None
    } else if s[i - 1] == c {
        Some(i - 1)
    } else {
        rfind_char(s, c, i - 1)
    }
}

pub fn rfind_char_in(cs: &Vec<char>, c: char, hi: usize) -> (r: Option<usize>)
    requires
        hi <= cs@.len(),
    ensures
        match r {
            Some(k) => Some(k as int) == rfind_char(cs@, c, hi as int) && k < hi
                && cs@[k as int] == c,
            None => rfind_char(cs@, c, hi as int) is None,
        },
{
    let mut i = hi;
    while i > 0
        invariant
            hi <= cs@.len(),
            i <= hi,
            rfind_char(cs@, c, hi as int) == rfind_char(cs@, c, i as int),
        decreases i,
    {
        if cs[i - 1] == c {
            return Some(i - 1);
        }
        i = i - 1;
    }
    None
}

pub broadcast proof fn lemma_lskip_spaces_ge(s: Seq<char>, i: int, hi: int)
    ensures
        i <= #[trigger] lskip_spaces(s, i, hi),
        0 <= i <= hi <= s.len() ==> lskip_spaces(s, i, hi) <= hi,
    decreases hi - i,
{
    if 0 <= i < hi && hi <= s.len() && is_space_char(s[i]) {
        lemma_lskip_spaces_ge(s, i + 1, hi);
    }
}

/// Characters of a matched pattern can be read off the subject.
pub proof fn lemma_matches_at_index(s: Seq<char>, pat: Seq<char>, i: int, k: int)
    requires
        matches_at(s, pat, i),
        0 <= k < pat.len(),
    ensures
        s[i + k] == pat[k],
{
    assert(s.subrange(i, i + pat.len())[k] == pat[k]);
}

pub proof fn lemma_find_space_le(s: Seq<char>, i: int, k: int)
    requires
        0 <= i <= k < s.len(),
        is_space_char(s[k]),
    ensures
        find_space(s, i) <= k,
    decreases k - i,
{
    if i < k && !is_space_char(s[i]) {
        lemma_find_space_le(s, i + 1, k);
    }
}



} // verus!
