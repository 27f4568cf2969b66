//! Character classes and elementary scanning over sequences of characters:
//! substring search and maximal runs of a character class.

use vstd::prelude::*;
use vstd::string::*;

verus! {

/// An ASCII decimal digit. The report's numeric tokens are ASCII digits:
/// a digit of another script would not parse as a number, so the scanners
/// accept ASCII digits alone, on purpose.
pub open spec fn is_digit(c: char) -> bool {
    48 <= c as int && c as int <= 57
}

/// Whitespace, as Unicode's White_Space property defines it: the set that
/// `char::is_whitespace` accepts (tab through carriage return, space, next
/// line, no-break space, the Ogham space mark, the en-quad through
/// hair-space block, the line and paragraph separators, the narrow
/// no-break, medium mathematical and ideographic spaces).
pub open spec fn is_ws(c: char) -> bool {
    let u = c as int;
    (9 <= u && u <= 13) || u == 32 || u == 0x85 || u == 0xa0 || u == 0x1680 || (0x2000 <= u && u
        <= 0x200a) || u == 0x2028 || u == 0x2029 || u == 0x202f || u == 0x205f || u == 0x3000
}

/// A word character: an ASCII letter, a digit, or an underscore. The
/// color-encoding tokens of the report are ASCII identifiers, so word runs
/// are restricted to them, on purpose.
pub open spec fn is_word(c: char) -> bool {
    is_digit(c) || (65 <= c as int && c as int <= 90) || (97 <= c as int && c as int <= 122)
        || c == '_'
}

pub fn is_digit_exec(c: char) -> (b: bool)
    ensures
        b == is_digit(c),
{
    let u = c as u32;
    48 <= u && u <= 57
}

pub fn is_ws_exec(c: char) -> (b: bool)
    ensures
        b == is_ws(c),
{
    let u = c as u32;
    (9 <= u && u <= 13) || u == 32 || u == 0x85 || u == 0xa0 || u == 0x1680 || (0x2000 <= u && u
        <= 0x200a) || u == 0x2028 || u == 0x2029 || u == 0x202f || u == 0x205f || u == 0x3000
}

pub fn is_word_exec(c: char) -> (b: bool)
    ensures
        b == is_word(c),
{
    let u = c as u32;
    (48 <= u && u <= 57) || (65 <= u && u <= 90) || (97 <= u && u <= 122) || c == '_'
}

/// The pattern `pat` occurs in `s` starting at position `i`.
pub open spec fn occurs_at(s: Seq<char>, pat: Seq<char>, i: int) -> bool {
    0 <= i && i + pat.len() <= s.len() && s.subrange(i, i + pat.len()) == pat
}

/// Position of the first occurrence of `pat` in `s` at or after `i`.
pub open spec fn find_from(s: Seq<char>, pat: Seq<char>, i: int) -> Option<int>
    decreases s.len() - i,
{
    if i < 0 || pat.len() == 0 || i + pat.len() > s.len() {
        None
    } else if occurs_at(s, pat, i) {
        Some(i)
    } else {
        find_from(s, pat, i + 1)
    }
}

pub proof fn lemma_find_from(s: Seq<char>, pat: Seq<char>, i: int)
    ensures
        match find_from(s, pat, i) {
            Some(j) => i <= j && occurs_at(s, pat, j),
            None => true,
        },
    decreases s.len() - i,
{
    if !(i < 0 || pat.len() == 0 || i + pat.len() > s.len()) && !occurs_at(s, pat, i) {
        lemma_find_from(s, pat, i + 1);
    }
}

/// `s` contains the pattern `pat`.
pub open spec fn contains_seq(s: Seq<char>, pat: Seq<char>) -> bool {
    find_from(s, pat, 0) is Some
}

/// Copies the characters of a string slice into a vector.
pub fn str_to_chars(s: &str) -> (v: Vec<char>)
    ensures
        v@ == s@,
{
    let n = s.unicode_len();
    let mut v: Vec<char> = Vec::new();
    let mut i: usize = 0;
    while i < n
        invariant
            i <= n,
            n == s@.len(),
            v@ == s@.take(i as int),
        decreases n - i,
    {
        let c = s.get_char(i);
        v.push(c);
        proof {
            assert(s@.take(i + 1) =~= s@.take(i as int).push(s@[i as int]));
        }
        i += 1;
    }
    proof {
        assert(s@.take(n as int) =~= s@);
    }
    v
}

/// Naive substring search, proved to return the first occurrence.
pub fn find_substr(hay: &Vec<char>, pat: &Vec<char>) -> (r: Option<usize>)
    requires
        pat@.len() >= 1,
    ensures
        match r {
            Some(i) => find_from(hay@, pat@, 0) == Some(i as int),
            None => find_from(hay@, pat@, 0) is None,
        },
{
    let n = hay.len();
    let m = pat.len();
    if m > n {
        return None;
    }
    let mut i: usize = 0;
    while i <= n - m
        invariant
            1 <= m <= n,
            n == hay@.len(),
            m == pat@.len(),
            i <= n - m + 1,
            find_from(hay@, pat@, 0) == find_from(hay@, pat@, i as int),
        decreases n - m - i + 1,
    {
        let mut k: usize = 0;
        let mut mismatch = false;
        while k < m
            invariant
                0 <= k <= m,
                i + m <= n,
                n == hay@.len(),
                m == pat@.len(),
                !mismatch ==> forall|t: int| 0 <= t < k ==> hay@[i + t] == pat@[t],
                mismatch ==> !occurs_at(hay@, pat@, i as int),
            decreases m - k,
        {
            if hay[i + k] != pat[k] {
                proof {
                    if occurs_at(hay@, pat@, i as int) {
                        assert(hay@.subrange(i as int, i + m)[k as int] == hay@[i + k]);
                    }
                }
                mismatch = true;
            }
            k += 1;
        }
        if !mismatch {
            proof {
                assert(hay@.subrange(i as int, i + m) =~= pat@);
                assert(find_from(hay@, pat@, i as int) == Some(i as int));
            }
            return Some(i);
        }
        proof {
            assert(find_from(hay@, pat@, i as int) == find_from(hay@, pat@, i + 1));
        }
        i += 1;
    }
    proof {
        assert(find_from(hay@, pat@, i as int) is None);
    }
    None
}

/// `s` contains the pattern given as a string literal.
pub fn contains_str(line: &Vec<char>, pat: &str) -> (b: bool)
    requires
        pat@.len() >= 1,
    ensures
        b == contains_seq(line@, pat@),
{
    let p = str_to_chars(pat);
    find_substr(line, &p).is_some()
}

/// Position of the first occurrence of the character `c` at or after `i`.
pub open spec fn find_char_from(s: Seq<char>, c: char, i: int) -> Option<int>
    decreases s.len() - i,
{
    if i < 0 || i >= s.len() {
        None
    } else if s[i] == c {
        Some(i)
    } else {
        find_char_from(s, c, i + 1)
    }
}

pub proof fn lemma_find_char_from(s: Seq<char>, c: char, i: int)
    ensures
        match find_char_from(s, c, i) {
            Some(j) => i <= j < s.len() && s[j] == c,
            None => true,
        },
    decreases s.len() - i,
{
    if 0 <= i < s.len() && s[i] != c {
        lemma_find_char_from(s, c, i + 1);
    }
}

pub fn find_char_exec(v: &Vec<char>, c: char, from: usize) -> (r: Option<usize>)
    requires
        from <= v@.len(),
    ensures
        match r {
            Some(i) => find_char_from(v@, c, from as int) == Some(i as int) && from <= i
                < v@.len(),
            None => find_char_from(v@, c, from as int) is None,
        },
{
    let n = v.len();
    let mut i = from;
    while i < n
        invariant
            from <= i <= n,
            n == v@.len(),
            find_char_from(v@, c, from as int) == find_char_from(v@, c, i as int),
        decreases n - i,
    {
        if v[i] == c {
            return Some(i);
        }
        i += 1;
    }
    None
}

/// Copies the characters `v[a..b]` into a fresh vector.
pub fn copy_range(v: &Vec<char>, a: usize, b: usize) -> (r: Vec<char>)
    requires
        a <= b <= v@.len(),
    ensures
        r@ == v@.subrange(a as int, b as int),
{
    let mut r: Vec<char> = Vec::new();
    let mut i = a;
    while i < b
        invariant
            a <= i <= b <= v@.len(),
            r@ == v@.subrange(a as int, i as int),
        decreases b - i,
    {
        r.push(v[i]);
        proof {
            assert(v@.subrange(a as int, i + 1) =~= v@.subrange(a as int, i as int).push(
                v@[i as int],
            ));
        }
        i += 1;
    }
    r
}

/// End of the maximal run of decimal digits starting at `i`.
pub open spec fn digit_run_end(s: Seq<char>, i: int) -> int
    decreases s.len() - i,
{
    if i < 0 || i >= s.len() {
        i
    } else if is_digit(s[i]) {
        digit_run_end(s, i + 1)
    } else {
        i
    }
}

pub proof fn lemma_digit_run_end(s: Seq<char>, i: int)
    requires
        0 <= i <= s.len(),
    ensures
        i <= digit_run_end(s, i) <= s.len(),
        forall|t: int| i <= t < digit_run_end(s, i) ==> is_digit(s[t]),
        digit_run_end(s, i) < s.len() ==> !is_digit(s[digit_run_end(s, i)]),
    decreases s.len() - i,
{
    if i < s.len() && is_digit(s[i]) {
        lemma_digit_run_end(s, i + 1);
    }
}

pub fn digit_run_end_exec(v: &Vec<char>, i: usize) -> (r: usize)
    requires
        i <= v@.len(),
    ensures
        r as int == digit_run_end(v@, i as int),
        i <= r <= v@.len(),
{
    proof {
        lemma_digit_run_end(v@, i as int);
    }
    let n = v.len();
    let mut j = i;
    while j < n && is_digit_exec(v[j])
        invariant
            i <= j <= n,
            n == v@.len(),
            digit_run_end(v@, i as int) == digit_run_end(v@, j as int),
        decreases n - j,
    {
        j += 1;
    }
    j
}

/// End of the maximal run of whitespace starting at `i`.
pub open spec fn ws_run_end(s: Seq<char>, i: int) -> int
    decreases s.len() - i,
{
    if i < 0 || i >= s.len() {
        i
    } else if is_ws(s[i]) {
        ws_run_end(s, i + 1)
    } else {
        i
    }
}

pub proof fn lemma_ws_run_end(s: Seq<char>, i: int)
    requires
        0 <= i <= s.len(),
    ensures
        i <= ws_run_end(s, i) <= s.len(),
    decreases s.len() - i,
{
    if i < s.len() && is_ws(s[i]) {
        lemma_ws_run_end(s, i + 1);
    }
}

pub fn ws_run_end_exec(v: &Vec<char>, i: usize) -> (r: usize)
    requires
        i <= v@.len(),
    ensures
        r as int == ws_run_end(v@, i as int),
        i <= r <= v@.len(),
{
    proof {
        lemma_ws_run_end(v@, i as int);
    }
    let n = v.len();
    let mut j = i;
    while j < n && is_ws_exec(v[j])
        invariant
            i <= j <= n,
            n == v@.len(),
            ws_run_end(v@, i as int) == ws_run_end(v@, j as int),
        decreases n - j,
    {
        j += 1;
    }
    j
}

/// End of the maximal run of word characters starting at `i`.
pub open spec fn word_run_end(s: Seq<char>, i: int) -> int
    decreases s.len() - i,
{
    if i < 0 || i >= s.len() {
        i
    } else if is_word(s[i]) {
        word_run_end(s, i + 1)
    } else {
        i
    }
}

pub proof fn lemma_word_run_end(s: Seq<char>, i: int)
    requires
        0 <= i <= s.len(),
    ensures
        i <= word_run_end(s, i) <= s.len(),
    decreases s.len() - i,
{
    if i < s.len() && is_word(s[i]) {
        lemma_word_run_end(s, i + 1);
    }
}

pub fn word_run_end_exec(v: &Vec<char>, i: usize) -> (r: usize)
    requires
        i <= v@.len(),
    ensures
        r as int == word_run_end(v@, i as int),
        i <= r <= v@.len(),
{
    proof {
        lemma_word_run_end(v@, i as int);
    }
    let n = v.len();
    let mut j = i;
    while j < n && is_word_exec(v[j])
        invariant
            i <= j <= n,
            n == v@.len(),
            word_run_end(v@, i as int) == word_run_end(v@, j as int),
        decreases n - j,
    {
        j += 1;
    }
    j
}

} // verus!
