//! The line recognizers: for each kind of report line, a specification of
//! what is extracted and an executable scanner proved against it.
//!
//! Every recognizer works on one line of the report. A number token is a run
//! of digits optionally followed by `.` and a run of digits; where the token
//! must be followed by some continuation (a separator, `fps`, `,`, `)`), the
//! fractional part is taken greedily and dropped again if the continuation
//! does not fit after it, as a backtracking matcher would do. A search always
//! yields the leftmost match.

use vstd::prelude::*;
use vstd::string::*;
use crate::chars::{
    copy_range, digit_run_end, digit_run_end_exec, is_digit, is_digit_exec, is_word, is_word_exec,
    is_ws, is_ws_exec, lemma_digit_run_end, word_run_end, word_run_end_exec, ws_run_end,
    ws_run_end_exec,
};
use crate::numfmt::{all_digits, fmt_floor, fmt_floor_exec, fmt_round, fmt_round_exec};

verus! {

// ---------------------------------------------------------------------------
// Number tokens
// ---------------------------------------------------------------------------
/// The token starting at `q` has a fractional part: its digit run is
/// followed by `.` and at least one more digit.
pub open spec fn num_frac_exists(s: Seq<char>, q: int) -> bool {
    let d = digit_run_end(s, q);
    d < s.len() && s[d] == '.' && d + 1 < s.len() && is_digit(s[d + 1])
}

/// End of the fractional digit run of the token starting at `q`.
pub open spec fn num_frac_end(s: Seq<char>, q: int) -> int {
    digit_run_end(s, digit_run_end(s, q) + 1)
}

/// End of the token starting at `q` when nothing constrains what follows.
pub open spec fn num_greedy_end(s: Seq<char>, q: int) -> int {
    if num_frac_exists(s, q) {
        num_frac_end(s, q)
    } else {
        digit_run_end(s, q)
    }
}

/// The integer-part digits of the token starting at `q`.
pub open spec fn num_ip(s: Seq<char>, q: int) -> Seq<char> {
    s.subrange(q, digit_run_end(s, q))
}

/// The fractional digits of the token starting at `q` (empty without one).
pub open spec fn num_fp(s: Seq<char>, q: int) -> Seq<char> {
    if num_frac_exists(s, q) {
        s.subrange(digit_run_end(s, q) + 1, num_frac_end(s, q))
    } else {
        Seq::<char>::empty()
    }
}

/// End of the token starting at `q` when the character `c` must follow:
/// first tried with the fractional part, then without.
pub open spec fn num_end_before(s: Seq<char>, q: int, c: char) -> Option<int> {
    if num_frac_exists(s, q) && num_frac_end(s, q) < s.len() && s[num_frac_end(s, q)] == c {
        Some(num_frac_end(s, q))
    } else if digit_run_end(s, q) < s.len() && s[digit_run_end(s, q)] == c {
        Some(digit_run_end(s, q))
    } else {
        None
    }
}

/// Scans the token at `q`: its digit-run end and, if present, the end of
/// its fractional part.
pub fn num_scan(v: &Vec<char>, q: usize) -> (r: (usize, Option<usize>))
    requires
        q <= v@.len(),
    ensures
        r.0 as int == digit_run_end(v@, q as int),
        q <= r.0 <= v@.len(),
        match r.1 {
            Some(fe) => num_frac_exists(v@, q as int) && fe as int == num_frac_end(v@, q as int)
                && r.0 < fe <= v@.len(),
            None => !num_frac_exists(v@, q as int),
        },
{
    let d = digit_run_end_exec(v, q);
    if d < v.len() && v[d] == '.' && d + 1 < v.len() && is_digit_exec(v[d + 1]) {
        let fe = digit_run_end_exec(v, d + 1);
        proof {
            assert(digit_run_end(v@, d + 1) == digit_run_end(v@, d + 2));
            lemma_digit_run_end(v@, d + 2);
        }
        (d, Some(fe))
    } else {
        (d, None)
    }
}

/// Renders the token starting at `q` with two fractional digits. The
/// fraction is used only when `with_frac` says so; `round` picks rounding
/// over truncation.
pub fn fmt_num_at(v: &Vec<char>, q: usize, with_frac: bool, round: bool) -> (s: String)
    requires
        q < v@.len(),
        is_digit(v@[q as int]),
    ensures
        ({
            let fp = if with_frac {
                num_fp(v@, q as int)
            } else {
                Seq::<char>::empty()
            };
            if round {
                s@ == fmt_round(num_ip(v@, q as int), fp)
            } else {
                s@ == fmt_floor(num_ip(v@, q as int), fp)
            }
        }),
{
    let (d, fe) = num_scan(v, q);
    proof {
        assert(digit_run_end(v@, q as int) == digit_run_end(v@, q + 1));
        lemma_digit_run_end(v@, q + 1);
        lemma_digit_run_end(v@, q as int);
    }
    let ip = copy_range(v, q, d);
    let fp: Vec<char> = match fe {
        Some(fe) if with_frac => {
            proof {
                lemma_digit_run_end(v@, d + 2);
                assert(digit_run_end(v@, d + 1) == digit_run_end(v@, d + 2));
            }
            copy_range(v, d + 1, fe)
        },
        _ => Vec::new(),
    };
    proof {
        assert(ip@ == num_ip(v@, q as int));
        assert(all_digits(ip@));
        assert(all_digits(fp@));
        if with_frac {
            assert(fp@ =~= num_fp(v@, q as int));
        } else {
            assert(fp@ =~= Seq::<char>::empty());
        }
    }
    if round {
        fmt_round_exec(&ip, &fp)
    } else {
        fmt_floor_exec(&ip, &fp)
    }
}

// ---------------------------------------------------------------------------
// Trim counts: every `(<digits>,` group on the line, in order
// ---------------------------------------------------------------------------
/// A parenthesized leading integer `(<digits>,` starts at `i`.
pub open spec fn tm_match_at(s: Seq<char>, i: int) -> bool {
    &&& 0 <= i < s.len()
    &&& s[i] == '('
    &&& i + 1 < s.len()
    &&& is_digit(s[i + 1])
    &&& digit_run_end(s, i + 1) < s.len()
    &&& s[digit_run_end(s, i + 1)] == ','
}

/// The digit strings of all `(<digits>,` groups at or after `i`, leftmost
/// first, non-overlapping.
pub open spec fn trim_tokens(s: Seq<char>, i: int) -> Seq<Seq<char>>
    decreases s.len() - i,
    via trim_tokens_dec
{
    if i < 0 || i >= s.len() {
        Seq::<Seq<char>>::empty()
    } else if tm_match_at(s, i) {
        seq![s.subrange(i + 1, digit_run_end(s, i + 1))] + trim_tokens(
            s,
            digit_run_end(s, i + 1) + 1,
        )
    } else {
        trim_tokens(s, i + 1)
    }
}

#[via_fn]
proof fn trim_tokens_dec(s: Seq<char>, i: int) {
    if 0 <= i < s.len() && tm_match_at(s, i) {
        lemma_digit_run_end(s, i + 1);
    }
}

/// The views of a sequence of strings.
pub open spec fn strs_view(ss: Seq<String>) -> Seq<Seq<char>> {
    Seq::new(ss.len(), |i: int| ss[i]@)
}

/// Every string of `ss` is a nonempty run of decimal digits.
pub open spec fn digit_strings(ss: Seq<Seq<char>>) -> bool {
    forall|k: int| 0 <= k < ss.len() ==> (#[trigger] ss[k]).len() > 0 && all_digits(ss[k])
}

/// Every collected trim token is a nonempty run of decimal digits.
pub proof fn lemma_trim_tokens_digits(s: Seq<char>, i: int)
    ensures
        digit_strings(trim_tokens(s, i)),
    decreases s.len() - i,
{
    if i < 0 || i >= s.len() {
    } else if tm_match_at(s, i) {
        let j = digit_run_end(s, i + 1);
        lemma_digit_run_end(s, i + 1);
        assert(digit_run_end(s, i + 1) == digit_run_end(s, i + 2));
        lemma_digit_run_end(s, i + 2);
        let head = s.subrange(i + 1, j);
        assert(head.len() > 0);
        assert(all_digits(head));
        lemma_trim_tokens_digits(s, j + 1);
        let rest = trim_tokens(s, j + 1);
        assert(trim_tokens(s, i) == seq![head] + rest);
        assert forall|k: int| 0 <= k < trim_tokens(s, i).len() implies (#[trigger] trim_tokens(
            s,
            i,
        )[k]).len() > 0 && all_digits(trim_tokens(s, i)[k]) by {
            if k == 0 {
                assert(trim_tokens(s, i)[k] == head);
            } else {
                assert(trim_tokens(s, i)[k] == rest[k - 1]);
            }
        }
    } else {
        lemma_trim_tokens_digits(s, i + 1);
        assert(trim_tokens(s, i) == trim_tokens(s, i + 1));
    }
}

/// Collects the digit strings of all `(<digits>,` groups on the line.
pub fn trim_tokens_exec(ls: &str, v: &Vec<char>) -> (r: Vec<String>)
    requires
        v@ == ls@,
    ensures
        strs_view(r@) == trim_tokens(v@, 0),
{
    let n = v.len();
    let mut out: Vec<String> = Vec::new();
    let mut i: usize = 0;
    while i < n
        invariant
            v@ == ls@,
            i <= n,
            n == v@.len(),
            trim_tokens(v@, 0) == strs_view(out@) + trim_tokens(v@, i as int),
        decreases n - i,
    {
        let mut step: usize = i + 1;
        if v[i] == '(' && i + 1 < n && is_digit_exec(v[i + 1]) {
            let j = digit_run_end_exec(v, i + 1);
            if j < n && v[j] == ',' {
                let tok = String::from_str(ls.substring_char(i + 1, j));
                proof {
                    assert(tm_match_at(v@, i as int));
                    assert(trim_tokens(v@, i as int) == seq![
                        v@.subrange(i + 1, digit_run_end(v@, i + 1)),
                    ] + trim_tokens(v@, digit_run_end(v@, i + 1) + 1));
                    assert(strs_view(out@.push(tok)) =~= strs_view(out@) + seq![tok@]);
                    assert(strs_view(out@) + (seq![tok@] + trim_tokens(v@, j + 1)) =~= (strs_view(
                        out@,
                    ) + seq![tok@]) + trim_tokens(v@, j + 1));
                }
                out.push(tok);
                step = j + 1;
            } else {
                proof {
                    assert(!tm_match_at(v@, i as int));
                }
            }
        } else {
            proof {
                assert(!tm_match_at(v@, i as int));
            }
        }
        i = step;
    }
    proof {
        assert(trim_tokens(v@, i as int) =~= Seq::<Seq<char>>::empty());
        assert(strs_view(out@) =~= strs_view(out@) + trim_tokens(v@, i as int));
    }
    out
}

// ---------------------------------------------------------------------------
// Version: the first `<digits>.<digits>.<digits>` substring
// ---------------------------------------------------------------------------
/// A three-component dotted version number starts at `i`.
pub open spec fn mv_match_at(s: Seq<char>, i: int) -> bool {
    &&& 0 <= i < s.len()
    &&& is_digit(s[i])
    &&& {
        let j1 = digit_run_end(s, i);
        &&& j1 < s.len()
        &&& s[j1] == '.'
        &&& j1 + 1 < s.len()
        &&& is_digit(s[j1 + 1])
        &&& {
            let j2 = digit_run_end(s, j1 + 1);
            &&& j2 < s.len()
            &&& s[j2] == '.'
            &&& j2 + 1 < s.len()
            &&& is_digit(s[j2 + 1])
        }
    }
}

/// End of the version number starting at `i`.
pub open spec fn mv_end(s: Seq<char>, i: int) -> int {
    digit_run_end(s, digit_run_end(s, digit_run_end(s, i) + 1) + 1)
}

/// Start of the leftmost version number at or after `i`.
pub open spec fn mv_first(s: Seq<char>, i: int) -> Option<int>
    decreases s.len() - i,
{
    if i < 0 || i >= s.len() {
        None
    } else if mv_match_at(s, i) {
        Some(i)
    } else {
        mv_first(s, i + 1)
    }
}

/// The leftmost `<digits>.<digits>.<digits>` substring of the line, if any.
pub fn find_version(ls: &str, v: &Vec<char>) -> (r: Option<String>)
    requires
        v@ == ls@,
    ensures
        match r {
            Some(s) => mv_first(v@, 0) is Some && s@ == ({
                let q = mv_first(v@, 0).unwrap();
                v@.subrange(q, mv_end(v@, q))
            }),
            None => mv_first(v@, 0) is None,
        },
{
    let n = v.len();
    let mut i: usize = 0;
    while i < n
        invariant
            v@ == ls@,
            i <= n,
            n == v@.len(),
            mv_first(v@, 0) == mv_first(v@, i as int),
        decreases n - i,
    {
        if is_digit_exec(v[i]) {
            let j1 = digit_run_end_exec(v, i);
            if j1 < n && v[j1] == '.' && j1 + 1 < n && is_digit_exec(v[j1 + 1]) {
                let j2 = digit_run_end_exec(v, j1 + 1);
                proof {
                    assert(digit_run_end(v@, j1 + 1) == digit_run_end(v@, j1 + 2));
                    lemma_digit_run_end(v@, j1 + 2);
                }
                if j2 < n && v[j2] == '.' && j2 + 1 < n && is_digit_exec(v[j2 + 1]) {
                    let j3 = digit_run_end_exec(v, j2 + 1);
                    proof {
                        assert(digit_run_end(v@, j2 + 1) == digit_run_end(v@, j2 + 2));
                        lemma_digit_run_end(v@, j2 + 2);
                        assert(mv_match_at(v@, i as int));
                        assert(mv_first(v@, i as int) == Some(i as int));
                        assert(j3 as int == mv_end(v@, i as int));
                    }
                    return Some(String::from_str(ls.substring_char(i, j3)));
                } else {
                    proof {
                        assert(!mv_match_at(v@, i as int));
                    }
                }
            } else {
                proof {
                    assert(!mv_match_at(v@, i as int));
                }
            }
        } else {
            proof {
                assert(!mv_match_at(v@, i as int));
            }
        }
        i += 1;
    }
    None
}

// ---------------------------------------------------------------------------
// Aspect ratios: two number tokens separated by ` - `
// ---------------------------------------------------------------------------
/// The separator ` - ` followed by a digit stands at `e`.
pub open spec fn ar_sep_at(s: Seq<char>, e: int) -> bool {
    &&& 0 <= e
    &&& e + 3 < s.len()
    &&& s[e] == ' '
    &&& s[e + 1] == '-'
    &&& s[e + 2] == ' '
    &&& is_digit(s[e + 3])
}

/// End of the first token of an aspect-ratio pair starting at `q`.
pub open spec fn ar_e1(s: Seq<char>, q: int) -> Option<int> {
    if num_frac_exists(s, q) && ar_sep_at(s, num_frac_end(s, q)) {
        Some(num_frac_end(s, q))
    } else if ar_sep_at(s, digit_run_end(s, q)) {
        Some(digit_run_end(s, q))
    } else {
        None
    }
}

/// An aspect-ratio pair starts at `q`.
pub open spec fn ar_match_at(s: Seq<char>, q: int) -> bool {
    0 <= q < s.len() && is_digit(s[q]) && ar_e1(s, q) is Some
}

/// Start of the leftmost aspect-ratio pair at or after `i`.
pub open spec fn ar_first(s: Seq<char>, i: int) -> Option<int>
    decreases s.len() - i,
{
    if i < 0 || i >= s.len() {
        None
    } else if ar_match_at(s, i) {
        Some(i)
    } else {
        ar_first(s, i + 1)
    }
}

/// The first token of the pair, exactly as written.
pub open spec fn ar_canvas(s: Seq<char>, q: int) -> Seq<char> {
    s.subrange(q, ar_e1(s, q).unwrap())
}

/// The second token of the pair, truncated to two fractional digits.
pub open spec fn ar_image(s: Seq<char>, q: int) -> Seq<char> {
    let p = ar_e1(s, q).unwrap() + 3;
    fmt_floor(num_ip(s, p), num_fp(s, p))
}

/// The leftmost `<num> - <num>` pair of the line: the first number as
/// written and the second truncated to two fractional digits.
pub fn find_aspect(ls: &str, v: &Vec<char>) -> (r: Option<(String, String)>)
    requires
        v@ == ls@,
    ensures
        match r {
            Some(p) => ar_first(v@, 0) is Some && ({
                let q = ar_first(v@, 0).unwrap();
                p.0@ == ar_canvas(v@, q) && p.1@ == ar_image(v@, q)
            }),
            None => ar_first(v@, 0) is None,
        },
{
    let n = v.len();
    let mut i: usize = 0;
    while i < n
        invariant
            v@ == ls@,
            i <= n,
            n == v@.len(),
            ar_first(v@, 0) == ar_first(v@, i as int),
        decreases n - i,
    {
        if is_digit_exec(v[i]) {
            let (d, fe) = num_scan(v, i);
            let mut e1: Option<usize> = None;
            match fe {
                Some(f) => {
                    if n >= 4 && f < n - 3 && v[f] == ' ' && v[f + 1] == '-' && v[f + 2] == ' '
                        && is_digit_exec(v[f + 3]) {
                        e1 = Some(f);
                    }
                },
                None => {},
            }
            if e1.is_none() && n >= 4 && d < n - 3 && v[d] == ' ' && v[d + 1] == '-' && v[d + 2]
                == ' ' && is_digit_exec(v[d + 3]) {
                e1 = Some(d);
            }
            match e1 {
                Some(e) => {
                    proof {
                        assert(ar_e1(v@, i as int) == Some(e as int));
                        assert(ar_match_at(v@, i as int));
                        assert(ar_first(v@, i as int) == Some(i as int));
                    }
                    let canvas = String::from_str(ls.substring_char(i, e));
                    let image = fmt_num_at(v, e + 3, true, false);
                    proof {
                        assert(canvas@ == ar_canvas(v@, i as int));
                        assert(image@ == ar_image(v@, i as int));
                    }
                    return Some((canvas, image));
                },
                None => {
                    proof {
                        assert(!ar_match_at(v@, i as int));
                    }
                },
            }
        } else {
            proof {
                assert(!ar_match_at(v@, i as int));
            }
        }
        i += 1;
    }
    None
}

// ---------------------------------------------------------------------------
// Frame rate: a number token immediately followed by `fps`
// ---------------------------------------------------------------------------
/// The literal `fps` stands at `e`.
pub open spec fn fps_at(s: Seq<char>, e: int) -> bool {
    0 <= e && e + 3 <= s.len() && s[e] == 'f' && s[e + 1] == 'p' && s[e + 2] == 's'
}

/// End of the frame-rate token starting at `q`.
pub open spec fn fr_e(s: Seq<char>, q: int) -> Option<int> {
    if num_frac_exists(s, q) && fps_at(s, num_frac_end(s, q)) {
        Some(num_frac_end(s, q))
    } else if fps_at(s, digit_run_end(s, q)) {
        Some(digit_run_end(s, q))
    } else {
        None
    }
}

/// A frame-rate token starts at `q`.
pub open spec fn fr_match_at(s: Seq<char>, q: int) -> bool {
    0 <= q < s.len() && is_digit(s[q]) && fr_e(s, q) is Some
}

/// Start of the leftmost frame-rate token at or after `i`.
pub open spec fn fr_first(s: Seq<char>, i: int) -> Option<int>
    decreases s.len() - i,
{
    if i < 0 || i >= s.len() {
        None
    } else if fr_match_at(s, i) {
        Some(i)
    } else {
        fr_first(s, i + 1)
    }
}

/// The frame-rate token starting at `q`, rounded to two fractional digits.
pub open spec fn fr_value(s: Seq<char>, q: int) -> Seq<char> {
    if num_frac_exists(s, q) && fr_e(s, q).unwrap() == num_frac_end(s, q) {
        fmt_round(num_ip(s, q), num_fp(s, q))
    } else {
        fmt_round(num_ip(s, q), Seq::<char>::empty())
    }
}

/// The leftmost `<num>fps` of the line, its number rounded to two
/// fractional digits.
pub fn find_frame_rate(v: &Vec<char>) -> (r: Option<String>)
    ensures
        match r {
            Some(s) => fr_first(v@, 0) is Some && s@ == fr_value(v@, fr_first(v@, 0).unwrap()),
            None => fr_first(v@, 0) is None,
        },
{
    let n = v.len();
    let mut i: usize = 0;
    while i < n
        invariant
            i <= n,
            n == v@.len(),
            fr_first(v@, 0) == fr_first(v@, i as int),
        decreases n - i,
    {
        if is_digit_exec(v[i]) {
            let (d, fe) = num_scan(v, i);
            let mut e1: Option<usize> = None;
            let mut frac_used = false;
            match fe {
                Some(f) => {
                    if n >= 3 && f <= n - 3 && v[f] == 'f' && v[f + 1] == 'p' && v[f + 2] == 's' {
                        e1 = Some(f);
                        frac_used = true;
                    }
                },
                None => {},
            }
            if e1.is_none() && n >= 3 && d <= n - 3 && v[d] == 'f' && v[d + 1] == 'p' && v[d + 2]
                == 's' {
                e1 = Some(d);
            }
            match e1 {
                Some(_) => {
                    proof {
                        assert(fr_match_at(v@, i as int));
                        assert(fr_first(v@, i as int) == Some(i as int));
                        assert(frac_used == (num_frac_exists(v@, i as int) && fr_e(
                            v@,
                            i as int,
                        ).unwrap() == num_frac_end(v@, i as int)));
                    }
                    let value = fmt_num_at(v, i, frac_used, true);
                    proof {
                        assert(value@ == fr_value(v@, i as int));
                    }
                    return Some(value);
                },
                None => {
                    proof {
                        assert(!fr_match_at(v@, i as int));
                    }
                },
            }
        } else {
            proof {
                assert(!fr_match_at(v@, i as int));
            }
        }
        i += 1;
    }
    None
}

// ---------------------------------------------------------------------------
// Mastering monitor: the integer inside `(ID <digits>)`
// ---------------------------------------------------------------------------
/// A group `(ID <ws>* <digits>)` starts at `i`.
pub open spec fn mm_match_at(s: Seq<char>, i: int) -> bool {
    &&& 0 <= i
    &&& i + 2 < s.len()
    &&& s[i] == '('
    &&& s[i + 1] == 'I'
    &&& s[i + 2] == 'D'
    &&& {
        let j = ws_run_end(s, i + 3);
        &&& j < s.len()
        &&& is_digit(s[j])
        &&& digit_run_end(s, j) < s.len()
        &&& s[digit_run_end(s, j)] == ')'
    }
}

/// The digits inside the group starting at `i`.
pub open spec fn mm_digits(s: Seq<char>, i: int) -> Seq<char> {
    let j = ws_run_end(s, i + 3);
    s.subrange(j, digit_run_end(s, j))
}

/// Start of the leftmost `(ID <digits>)` group at or after `i`.
pub open spec fn mm_first(s: Seq<char>, i: int) -> Option<int>
    decreases s.len() - i,
{
    if i < 0 || i >= s.len() {
        None
    } else if mm_match_at(s, i) {
        Some(i)
    } else {
        mm_first(s, i + 1)
    }
}

/// The digits of the leftmost `(ID <digits>)` group of the line, if any.
pub fn find_monitor(ls: &str, v: &Vec<char>) -> (r: Option<String>)
    requires
        v@ == ls@,
    ensures
        match r {
            Some(s) => mm_first(v@, 0) is Some && s@ == mm_digits(v@, mm_first(v@, 0).unwrap()),
            None => mm_first(v@, 0) is None,
        },
{
    let n = v.len();
    let mut i: usize = 0;
    while i < n
        invariant
            v@ == ls@,
            i <= n,
            n == v@.len(),
            mm_first(v@, 0) == mm_first(v@, i as int),
        decreases n - i,
    {
        if v[i] == '(' && n >= 3 && i < n - 2 && v[i + 1] == 'I' && v[i + 2] == 'D' {
            let j = ws_run_end_exec(v, i + 3);
            if j < n && is_digit_exec(v[j]) {
                let k = digit_run_end_exec(v, j);
                if k < n && v[k] == ')' {
                    proof {
                        assert(mm_match_at(v@, i as int));
                        assert(mm_first(v@, i as int) == Some(i as int));
                    }
                    return Some(String::from_str(ls.substring_char(j, k)));
                } else {
                    proof {
                        assert(!mm_match_at(v@, i as int));
                    }
                }
            } else {
                proof {
                    assert(!mm_match_at(v@, i as int));
                }
            }
        } else {
            proof {
                assert(!mm_match_at(v@, i as int));
            }
        }
        i += 1;
    }
    None
}

// ---------------------------------------------------------------------------
// Level 6: two number tokens separated by `-` with optional whitespace
// ---------------------------------------------------------------------------
/// A `<ws>* - <ws>*` separator starts at `e`; the result is the start of
/// the digit that follows it.
pub open spec fn l6_sep(s: Seq<char>, e: int) -> Option<int> {
    let j = ws_run_end(s, e);
    if j < s.len() && s[j] == '-' {
        let k = ws_run_end(s, j + 1);
        if k < s.len() && is_digit(s[k]) {
            Some(k)
        } else {
            None
        }
    } else {
        None
    }
}

/// End of the first token of a level-6 pair starting at `q`.
pub open spec fn l6_e1(s: Seq<char>, q: int) -> Option<int> {
    if num_frac_exists(s, q) && l6_sep(s, num_frac_end(s, q)) is Some {
        Some(num_frac_end(s, q))
    } else if l6_sep(s, digit_run_end(s, q)) is Some {
        Some(digit_run_end(s, q))
    } else {
        None
    }
}

/// A level-6 pair starts at `q`.
pub open spec fn l6_match_at(s: Seq<char>, q: int) -> bool {
    0 <= q < s.len() && is_digit(s[q]) && l6_e1(s, q) is Some
}

/// Start of the leftmost level-6 pair at or after `i`.
pub open spec fn l6_first(s: Seq<char>, i: int) -> Option<int>
    decreases s.len() - i,
{
    if i < 0 || i >= s.len() {
        None
    } else if l6_match_at(s, i) {
        Some(i)
    } else {
        l6_first(s, i + 1)
    }
}

/// The first token of the pair, exactly as written.
pub open spec fn l6_fall(s: Seq<char>, q: int) -> Seq<char> {
    s.subrange(q, l6_e1(s, q).unwrap())
}

/// The second token of the pair, exactly as written.
pub open spec fn l6_cll(s: Seq<char>, q: int) -> Seq<char> {
    let p = l6_sep(s, l6_e1(s, q).unwrap()).unwrap();
    s.subrange(p, num_greedy_end(s, p))
}

/// The leftmost `<num> - <num>` pair (whitespace around `-` optional),
/// both numbers as written.
pub fn find_level6(ls: &str, v: &Vec<char>) -> (r: Option<(String, String)>)
    requires
        v@ == ls@,
    ensures
        match r {
            Some(p) => l6_first(v@, 0) is Some && ({
                let q = l6_first(v@, 0).unwrap();
                p.0@ == l6_fall(v@, q) && p.1@ == l6_cll(v@, q)
            }),
            None => l6_first(v@, 0) is None,
        },
{
    let n = v.len();
    let mut i: usize = 0;
    while i < n
        invariant
            v@ == ls@,
            i <= n,
            n == v@.len(),
            l6_first(v@, 0) == l6_first(v@, i as int),
        decreases n - i,
    {
        if is_digit_exec(v[i]) {
            let (d, fe) = num_scan(v, i);
            let mut e1: Option<usize> = None;
            let mut p2: usize = 0;
            match fe {
                Some(f) => {
                    let j = ws_run_end_exec(v, f);
                    if j < n && v[j] == '-' {
                        let k = ws_run_end_exec(v, j + 1);
                        if k < n && is_digit_exec(v[k]) {
                            e1 = Some(f);
                            p2 = k;
                        }
                    }
                },
                None => {},
            }
            if e1.is_none() {
                let j = ws_run_end_exec(v, d);
                if j < n && v[j] == '-' {
                    let k = ws_run_end_exec(v, j + 1);
                    if k < n && is_digit_exec(v[k]) {
                        e1 = Some(d);
                        p2 = k;
                    }
                }
            }
            match e1 {
                Some(e) => {
                    proof {
                        assert(l6_e1(v@, i as int) == Some(e as int));
                        assert(l6_match_at(v@, i as int));
                        assert(l6_first(v@, i as int) == Some(i as int));
                        assert(l6_sep(v@, e as int) == Some(p2 as int));
                    }
                    let fall = String::from_str(ls.substring_char(i, e));
                    let (d2, fe2) = num_scan(v, p2);
                    let cend = match fe2 {
                        Some(f2) => f2,
                        None => d2,
                    };
                    proof {
                        assert(cend as int == num_greedy_end(v@, p2 as int));
                    }
                    let cll = String::from_str(ls.substring_char(p2, cend));
                    proof {
                        assert(fall@ == l6_fall(v@, i as int));
                        assert(cll@ == l6_cll(v@, i as int));
                    }
                    return Some((fall, cll));
                },
                None => {
                    proof {
                        assert(!l6_match_at(v@, i as int));
                    }
                },
            }
        } else {
            proof {
                assert(!l6_match_at(v@, i as int));
            }
        }
        i += 1;
    }
    None
}

// ---------------------------------------------------------------------------
// Color encoding: `pq(<num>,<num>)` and three words
// ---------------------------------------------------------------------------
/// A color-encoding group `pq(<num>,<num>) <word> <word> <word>` starts
/// at `i`.
pub open spec fn ce_match_at(s: Seq<char>, i: int) -> bool {
    &&& 0 <= i
    &&& i + 3 < s.len()
    &&& s[i] == 'p'
    &&& s[i + 1] == 'q'
    &&& s[i + 2] == '('
    &&& is_digit(s[i + 3])
    &&& num_end_before(s, i + 3, ',') is Some
    &&& {
        let e1 = num_end_before(s, i + 3, ',').unwrap();
        &&& e1 + 1 < s.len()
        &&& is_digit(s[e1 + 1])
        &&& num_end_before(s, e1 + 1, ')') is Some
        &&& {
            let e2 = num_end_before(s, e1 + 1, ')').unwrap();
            &&& e2 + 1 < s.len()
            &&& is_ws(s[e2 + 1])
            &&& e2 + 2 < s.len()
            &&& is_word(s[e2 + 2])
            &&& {
                let w1e = word_run_end(s, e2 + 2);
                &&& w1e < s.len()
                &&& is_ws(s[w1e])
                &&& w1e + 1 < s.len()
                &&& is_word(s[w1e + 1])
                &&& {
                    let w2e = word_run_end(s, w1e + 1);
                    &&& w2e < s.len()
                    &&& is_ws(s[w2e])
                    &&& w2e + 1 < s.len()
                    &&& is_word(s[w2e + 1])
                }
            }
        }
    }
}

/// The first word after the group starting at `i`.
pub open spec fn ce_word1(s: Seq<char>, i: int) -> Seq<char> {
    let e1 = num_end_before(s, i + 3, ',').unwrap();
    let e2 = num_end_before(s, e1 + 1, ')').unwrap();
    s.subrange(e2 + 2, word_run_end(s, e2 + 2))
}

/// The second word after the group starting at `i`.
pub open spec fn ce_word2(s: Seq<char>, i: int) -> Seq<char> {
    let e1 = num_end_before(s, i + 3, ',').unwrap();
    let e2 = num_end_before(s, e1 + 1, ')').unwrap();
    let w1e = word_run_end(s, e2 + 2);
    s.subrange(w1e + 1, word_run_end(s, w1e + 1))
}

/// The third word after the group starting at `i`.
pub open spec fn ce_word3(s: Seq<char>, i: int) -> Seq<char> {
    let e1 = num_end_before(s, i + 3, ',').unwrap();
    let e2 = num_end_before(s, e1 + 1, ')').unwrap();
    let w1e = word_run_end(s, e2 + 2);
    let w2e = word_run_end(s, w1e + 1);
    s.subrange(w2e + 1, word_run_end(s, w2e + 1))
}

/// Start of the leftmost color-encoding group at or after `i`.
pub open spec fn ce_first(s: Seq<char>, i: int) -> Option<int>
    decreases s.len() - i,
{
    if i < 0 || i >= s.len() {
        None
    } else if ce_match_at(s, i) {
        Some(i)
    } else {
        ce_first(s, i + 1)
    }
}

/// Checks for the end of a number token followed by `c`, as
/// `num_end_before` describes.
fn num_end_before_exec(v: &Vec<char>, q: usize, c: char) -> (r: Option<usize>)
    requires
        q <= v@.len(),
    ensures
        match r {
            Some(e) => num_end_before(v@, q as int, c) == Some(e as int) && q <= e < v@.len(),
            None => num_end_before(v@, q as int, c) is None,
        },
{
    let (d, fe) = num_scan(v, q);
    match fe {
        Some(f) => {
            if f < v.len() && v[f] == c {
                return Some(f);
            }
        },
        None => {},
    }
    if d < v.len() && v[d] == c {
        Some(d)
    } else {
        None
    }
}

/// The three words of the leftmost color-encoding group of the line.
pub fn find_color(ls: &str, v: &Vec<char>) -> (r: Option<(String, String, String)>)
    requires
        v@ == ls@,
    ensures
        match r {
            Some(w) => ce_first(v@, 0) is Some && ({
                let q = ce_first(v@, 0).unwrap();
                w.0@ == ce_word1(v@, q) && w.1@ == ce_word2(v@, q) && w.2@ == ce_word3(v@, q)
            }),
            None => ce_first(v@, 0) is None,
        },
{
    let n = v.len();
    let mut i: usize = 0;
    while i < n
        invariant
            v@ == ls@,
            i <= n,
            n == v@.len(),
            ce_first(v@, 0) == ce_first(v@, i as int),
        decreases n - i,
    {
        if v[i] == 'p' && n >= 4 && i < n - 3 && v[i + 1] == 'q' && v[i + 2] == '('
            && is_digit_exec(v[i + 3]) {
            match num_end_before_exec(v, i + 3, ',') {
                Some(e1) => {
                    if e1 + 1 < n && is_digit_exec(v[e1 + 1]) {
                        match num_end_before_exec(v, e1 + 1, ')') {
                            Some(e2) => {
                                if n >= 3 && e2 < n - 2 && is_ws_exec(v[e2 + 1]) && is_word_exec(
                                    v[e2 + 2],
                                ) {
                                    let w1e = word_run_end_exec(v, e2 + 2);
                                    if w1e < n - 1 && is_ws_exec(v[w1e]) && is_word_exec(
                                        v[w1e + 1],
                                    ) {
                                        let w2e = word_run_end_exec(v, w1e + 1);
                                        if w2e < n - 1 && is_ws_exec(v[w2e]) && is_word_exec(
                                            v[w2e + 1],
                                        ) {
                                            let w3e = word_run_end_exec(v, w2e + 1);
                                            proof {
                                                assert(ce_match_at(v@, i as int));
                                                assert(ce_first(v@, i as int) == Some(i as int));
                                            }
                                            let w1 = String::from_str(
                                                ls.substring_char(e2 + 2, w1e),
                                            );
                                            let w2 = String::from_str(
                                                ls.substring_char(w1e + 1, w2e),
                                            );
                                            let w3 = String::from_str(
                                                ls.substring_char(w2e + 1, w3e),
                                            );
                                            proof {
                                                assert(w1@ == ce_word1(v@, i as int));
                                                assert(w2@ == ce_word2(v@, i as int));
                                                assert(w3@ == ce_word3(v@, i as int));
                                            }
                                            return Some((w1, w2, w3));
                                        }
                                    }
                                }
                            },
                            None => {},
                        }
                    }
                },
                None => {},
            }
        }
        proof {
            assert(!ce_match_at(v@, i as int));
        }
        i += 1;
    }
    None
}

// ---------------------------------------------------------------------------
// Whitespace trimming
// ---------------------------------------------------------------------------
/// `s` without its trailing whitespace.
pub open spec fn trim_right(s: Seq<char>) -> Seq<char>
    decreases s.len(),
{
    if s.len() > 0 && is_ws(s.last()) {
        trim_right(s.drop_last())
    } else {
        s
    }
}

/// `s` without its leading whitespace.
pub open spec fn trim_left(s: Seq<char>) -> Seq<char>
    decreases s.len(),
{
    if s.len() > 0 && is_ws(s.first()) {
        trim_left(s.drop_first())
    } else {
        s
    }
}

/// `s` without surrounding whitespace.
pub open spec fn trim_ws(s: Seq<char>) -> Seq<char> {
    trim_left(trim_right(s))
}

/// Bounds of `v[a..b]` without surrounding whitespace.
pub fn trim_bounds(v: &Vec<char>, a: usize, b: usize) -> (r: (usize, usize))
    requires
        a <= b <= v@.len(),
    ensures
        a <= r.0 <= r.1 <= b,
        trim_ws(v@.subrange(a as int, b as int)) == v@.subrange(r.0 as int, r.1 as int),
{
    let ghost s = v@.subrange(a as int, b as int);
    let mut hi = b;
    proof {
        assert(s.take(b - a) =~= s);
    }
    while hi > a && is_ws_exec(v[hi - 1])
        invariant
            s == v@.subrange(a as int, b as int),
            a <= hi <= b <= v@.len(),
            trim_right(s) == trim_right(s.take(hi - a)),
        decreases hi,
    {
        proof {
            assert(s.take(hi - a).last() == v@[hi - 1]);
            assert(s.take(hi - a).drop_last() =~= s.take(hi - 1 - a));
        }
        hi -= 1;
    }
    proof {
        if hi > a {
            assert(s.take(hi - a).last() == v@[hi - 1]);
            assert(trim_right(s.take(hi - a)) == s.take(hi - a));
        } else {
            assert(s.take(0) =~= Seq::<char>::empty());
            assert(trim_right(s.take(hi - a)) == s.take(hi - a));
        }
    }
    let ghost t = s.take(hi - a);
    let mut lo = a;
    proof {
        assert(t.skip(0) =~= t);
    }
    while lo < hi && is_ws_exec(v[lo])
        invariant
            s == v@.subrange(a as int, b as int),
            t == s.take(hi - a),
            trim_right(s) == t,
            a <= lo <= hi <= b <= v@.len(),
            trim_left(t) == trim_left(t.skip(lo - a)),
        decreases hi - lo,
    {
        proof {
            assert(t.skip(lo - a).first() == v@[lo as int]);
            assert(t.skip(lo - a).drop_first() =~= t.skip(lo + 1 - a));
        }
        lo += 1;
    }
    proof {
        if lo < hi {
            assert(t.skip(lo - a).first() == v@[lo as int]);
            assert(trim_left(t.skip(lo - a)) == t.skip(lo - a));
        } else {
            assert(t.skip(lo - a) =~= Seq::<char>::empty());
            assert(trim_left(t.skip(lo - a)) == t.skip(lo - a));
        }
        assert(t.skip(lo - a) =~= v@.subrange(lo as int, hi as int));
    }
    (lo, hi)
}

} // verus!
