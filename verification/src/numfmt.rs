//! Formatting of decimal number tokens with exactly two fractional digits.
//!
//! A number token is a run of digits optionally followed by `.` and another
//! run of digits. Two fixed-point renderings are offered, both exact decimal
//! arithmetic on digit strings:
//! - floor: the fraction is truncated to two digits;
//! - round: the fraction is rounded half-up to two digits, with the carry
//!   propagated into the integer part.
//!
//! Leading zeros of the integer part are dropped (one digit always remains),
//! as a numeric parse-and-print would do.

use vstd::prelude::*;
use vstd::string::*;
use crate::chars::is_digit;

verus! {

/// Every character of `s` is a decimal digit.
pub open spec fn all_digits(s: Seq<char>) -> bool {
    forall|i: int| 0 <= i < s.len() ==> is_digit(s[i])
}

/// The digit character after `c`, for `c` in `'0'..='8'`.
pub open spec fn digit_succ(c: char) -> char {
    if c == '0' {
        '1'
    } else if c == '1' {
        '2'
    } else if c == '2' {
        '3'
    } else if c == '3' {
        '4'
    } else if c == '4' {
        '5'
    } else if c == '5' {
        '6'
    } else if c == '6' {
        '7'
    } else if c == '7' {
        '8'
    } else if c == '8' {
        '9'
    } else {
        '0'
    }
}

/// Drops leading `'0'` characters, keeping at least one digit.
pub open spec fn strip_zeros(s: Seq<char>) -> Seq<char>
    decreases s.len(),
{
    if s.len() >= 2 && s[0] == '0' {
        strip_zeros(s.skip(1))
    } else {
        s
    }
}

/// The digit string denoting one more than what `s` denotes
/// (so `"19"` becomes `"20"`, `"99"` becomes `"100"`).
pub open spec fn inc_digits(s: Seq<char>) -> Seq<char>
    decreases s.len(),
{
    if s.len() == 0 {
        seq!['1']
    } else if s.last() == '9' {
        inc_digits(s.drop_last()) + seq!['0']
    } else {
        s.drop_last() + seq![digit_succ(s.last())]
    }
}

/// The first two digits of the fraction, padded on the right with `'0'`.
pub open spec fn pad2(fp: Seq<char>) -> Seq<char> {
    seq![
        if fp.len() > 0 {
            fp[0]
        } else {
            '0'
        },
        if fp.len() > 1 {
            fp[1]
        } else {
            '0'
        },
    ]
}

/// Rounding half-up to two fractional digits carries iff the third
/// fractional digit is five or more.
pub open spec fn round_carry(fp: Seq<char>) -> bool {
    fp.len() >= 3 && 53 <= fp[2] as int
}

/// The token with integer part `ip` and fraction `fp`, truncated to two
/// fractional digits.
pub open spec fn fmt_floor(ip: Seq<char>, fp: Seq<char>) -> Seq<char> {
    strip_zeros(ip) + seq!['.'] + pad2(fp)
}

/// The token with integer part `ip` and fraction `fp`, rounded half-up to
/// two fractional digits.
pub open spec fn fmt_round(ip: Seq<char>, fp: Seq<char>) -> Seq<char> {
    if round_carry(fp) {
        let w = inc_digits(strip_zeros(ip) + pad2(fp));
        w.take(w.len() - 2) + seq!['.'] + w.skip(w.len() - 2)
    } else {
        strip_zeros(ip) + seq!['.'] + pad2(fp)
    }
}

pub proof fn lemma_inc_digits_len(s: Seq<char>)
    ensures
        s.len() <= inc_digits(s).len() <= s.len() + 1,
    decreases s.len(),
{
    if s.len() > 0 && s.last() == '9' {
        lemma_inc_digits_len(s.drop_last());
    }
}

/// Appends one digit or dot character to a string.
pub fn push_char(s: &mut String, c: char)
    requires
        is_digit(c) || c == '.',
    ensures
        final(s)@ == old(s)@ + seq![c],
{
    match c {
        '0' => s.append("0"),
        '1' => s.append("1"),
        '2' => s.append("2"),
        '3' => s.append("3"),
        '4' => s.append("4"),
        '5' => s.append("5"),
        '6' => s.append("6"),
        '7' => s.append("7"),
        '8' => s.append("8"),
        '9' => s.append("9"),
        '.' => s.append("."),
        _ => {
            proof {
                assert(false);
            }
        },
    }
    proof {
        if c == '0' {
            reveal_strlit("0");
            assert(s@ =~= old(s)@ + seq![c]);
        } else if c == '1' {
            reveal_strlit("1");
            assert(s@ =~= old(s)@ + seq![c]);
        } else if c == '2' {
            reveal_strlit("2");
            assert(s@ =~= old(s)@ + seq![c]);
        } else if c == '3' {
            reveal_strlit("3");
            assert(s@ =~= old(s)@ + seq![c]);
        } else if c == '4' {
            reveal_strlit("4");
            assert(s@ =~= old(s)@ + seq![c]);
        } else if c == '5' {
            reveal_strlit("5");
            assert(s@ =~= old(s)@ + seq![c]);
        } else if c == '6' {
            reveal_strlit("6");
            assert(s@ =~= old(s)@ + seq![c]);
        } else if c == '7' {
            reveal_strlit("7");
            assert(s@ =~= old(s)@ + seq![c]);
        } else if c == '8' {
            reveal_strlit("8");
            assert(s@ =~= old(s)@ + seq![c]);
        } else if c == '9' {
            reveal_strlit("9");
            assert(s@ =~= old(s)@ + seq![c]);
        } else {
            reveal_strlit(".");
            assert(s@ =~= old(s)@ + seq![c]);
        }
    }
}

/// Appends the characters `v[a..b]`, all digits or dots, to a string.
pub fn append_chars(s: &mut String, v: &Vec<char>, a: usize, b: usize)
    requires
        a <= b <= v@.len(),
        forall|i: int| a <= i < b ==> is_digit(v@[i]) || v@[i] == '.',
    ensures
        final(s)@ == old(s)@ + v@.subrange(a as int, b as int),
{
    let mut i = a;
    while i < b
        invariant
            a <= i <= b <= v@.len(),
            forall|t: int| a <= t < b ==> is_digit(v@[t]) || v@[t] == '.',
            s@ == old(s)@ + v@.subrange(a as int, i as int),
        decreases b - i,
    {
        push_char(s, v[i]);
        proof {
            assert(v@.subrange(a as int, i + 1) =~= v@.subrange(a as int, i as int).push(
                v@[i as int],
            ));
        }
        i += 1;
    }
}

/// The all-`'0'` sequence of length `n`.
pub open spec fn zeros(n: nat) -> Seq<char> {
    Seq::new(n, |i: int| '0')
}

/// Adds one to a digit string.
fn inc_digits_exec(w: &Vec<char>) -> (r: Vec<char>)
    requires
        all_digits(w@),
    ensures
        r@ == inc_digits(w@),
        all_digits(r@),
{
    let ghost g = w@;
    let mut v: Vec<char> = Vec::new();
    let mut j: usize = 0;
    while j < w.len()
        invariant
            j <= w@.len(),
            v@ == w@.take(j as int),
        decreases w@.len() - j,
    {
        v.push(w[j]);
        proof {
            assert(w@.take(j + 1) =~= w@.take(j as int).push(w@[j as int]));
        }
        j += 1;
    }
    proof {
        assert(w@.take(w@.len() as int) =~= w@);
    }
    let mut i = v.len();
    proof {
        assert(g.take(i as int) =~= g);
        assert(v@ =~= g.take(i as int) + zeros((g.len() - i) as nat));
        assert(inc_digits(g) =~= inc_digits(g.take(i as int)) + zeros((g.len() - i) as nat));
    }
    loop
        invariant
            g == w@,
            0 <= i <= g.len(),
            v@.len() == g.len(),
            all_digits(g),
            all_digits(v@),
            v@ == g.take(i as int) + zeros((g.len() - i) as nat),
            inc_digits(g) == inc_digits(g.take(i as int)) + zeros((g.len() - i) as nat),
        decreases i,
    {
        if i == 0 {
            v.insert(0, '1');
            proof {
                assert(g.take(0) =~= Seq::<char>::empty());
                assert(inc_digits(g.take(0)) =~= seq!['1']);
                assert(v@ =~= inc_digits(g));
                assert(all_digits(v@));
            }
            return v;
        }
        let c = v[i - 1];
        proof {
            assert(v@[i - 1] == g.take(i as int)[i - 1]);
            assert(c == g[i - 1]);
        }
        if c == '9' {
            v.set(i - 1, '0');
            proof {
                assert(g.take(i as int).drop_last() =~= g.take(i - 1));
                assert(g.take(i as int).last() == g[i - 1]);
                assert(inc_digits(g.take(i as int)) == inc_digits(g.take(i - 1)) + seq!['0']);
                assert(inc_digits(g.take(i as int)) + zeros((g.len() - i) as nat) =~= inc_digits(
                    g.take(i - 1),
                ) + zeros((g.len() - (i - 1)) as nat));
                assert(v@ =~= g.take(i - 1) + zeros((g.len() - (i - 1)) as nat));
            }
            i -= 1;
        } else {
            let d = match c {
                '0' => '1',
                '1' => '2',
                '2' => '3',
                '3' => '4',
                '4' => '5',
                '5' => '6',
                '6' => '7',
                '7' => '8',
                '8' => '9',
                _ => '0',
            };
            proof {
                assert(is_digit(c));
                assert(d == digit_succ(c));
                assert(is_digit(d));
            }
            v.set(i - 1, d);
            proof {
                assert(g.take(i as int).drop_last() =~= g.take(i - 1));
                assert(g.take(i as int).last() == g[i - 1]);
                assert(inc_digits(g.take(i as int)) == g.take(i - 1) + seq![digit_succ(g[i - 1])]);
                assert(v@ =~= inc_digits(g.take(i as int)) + zeros((g.len() - i) as nat));
                assert(v@ =~= inc_digits(g));
                assert(all_digits(v@));
            }
            return v;
        }
    }
}

/// Index after the leading zeros of `v` (keeping at least one digit).
fn strip_zeros_start(v: &Vec<char>) -> (i: usize)
    requires
        v@.len() >= 1,
    ensures
        i < v@.len(),
        strip_zeros(v@) == v@.skip(i as int),
{
    let n = v.len();
    let mut i: usize = 0;
    proof {
        assert(v@.skip(0) =~= v@);
    }
    while i + 1 < n && v[i] == '0'
        invariant
            0 <= i < n,
            n == v@.len(),
            strip_zeros(v@) == strip_zeros(v@.skip(i as int)),
        decreases n - i,
    {
        proof {
            assert(v@.skip(i as int).len() >= 2);
            assert(v@.skip(i as int)[0] == v@[i as int]);
            assert(v@.skip(i as int).skip(1) =~= v@.skip(i + 1));
        }
        i += 1;
    }
    proof {
        if i + 1 < n {
            assert(v@.skip(i as int)[0] == v@[i as int]);
            assert(strip_zeros(v@.skip(i as int)) == v@.skip(i as int));
        } else {
            assert(v@.skip(i as int).len() == 1);
            assert(strip_zeros(v@.skip(i as int)) == v@.skip(i as int));
        }
    }
    i
}

/// Renders the token `ip . fp` truncated to two fractional digits.
pub fn fmt_floor_exec(ip: &Vec<char>, fp: &Vec<char>) -> (s: String)
    requires
        ip@.len() >= 1,
        all_digits(ip@),
        all_digits(fp@),
    ensures
        s@ == fmt_floor(ip@, fp@),
{
    let start = strip_zeros_start(ip);
    let mut s = String::new();
    append_chars(&mut s, ip, start, ip.len());
    proof {
        assert(ip@.subrange(start as int, ip@.len() as int) =~= ip@.skip(start as int));
    }
    push_char(&mut s, '.');
    let d1 = if fp.len() > 0 {
        fp[0]
    } else {
        '0'
    };
    let d2 = if fp.len() > 1 {
        fp[1]
    } else {
        '0'
    };
    push_char(&mut s, d1);
    push_char(&mut s, d2);
    proof {
        assert(s@ =~= fmt_floor(ip@, fp@));
    }
    s
}

/// Renders the token `ip . fp` rounded half-up to two fractional digits.
pub fn fmt_round_exec(ip: &Vec<char>, fp: &Vec<char>) -> (s: String)
    requires
        ip@.len() >= 1,
        all_digits(ip@),
        all_digits(fp@),
    ensures
        s@ == fmt_round(ip@, fp@),
{
    let start = strip_zeros_start(ip);
    let d1 = if fp.len() > 0 {
        fp[0]
    } else {
        '0'
    };
    let d2 = if fp.len() > 1 {
        fp[1]
    } else {
        '0'
    };
    let carry = fp.len() >= 3 && (fp[2] as u32) >= 53;
    proof {
        assert(carry == round_carry(fp@));
    }
    if carry {
        let mut w: Vec<char> = Vec::new();
        let mut k = start;
        while k < ip.len()
            invariant
                start <= k <= ip@.len(),
                all_digits(ip@),
                w@ == ip@.subrange(start as int, k as int),
            decreases ip@.len() - k,
        {
            w.push(ip[k]);
            proof {
                assert(ip@.subrange(start as int, k + 1) =~= ip@.subrange(
                    start as int,
                    k as int,
                ).push(ip@[k as int]));
            }
            k += 1;
        }
        w.push(d1);
        w.push(d2);
        proof {
            assert(ip@.subrange(start as int, ip@.len() as int) =~= ip@.skip(start as int));
            assert(w@ =~= strip_zeros(ip@) + pad2(fp@));
            assert(all_digits(w@));
        }
        let w = inc_digits_exec(&w);
        proof {
            lemma_inc_digits_len(strip_zeros(ip@) + pad2(fp@));
            assert(w@.len() >= 3);
        }
        let cut = w.len() - 2;
        let mut s = String::new();
        append_chars(&mut s, &w, 0, cut);
        push_char(&mut s, '.');
        append_chars(&mut s, &w, cut, w.len());
        proof {
            assert(w@.subrange(0, cut as int) =~= w@.take(cut as int));
            assert(w@.subrange(cut as int, w@.len() as int) =~= w@.skip(cut as int));
            assert(s@ =~= fmt_round(ip@, fp@));
        }
        s
    } else {
        let mut s = String::new();
        append_chars(&mut s, ip, start, ip.len());
        proof {
            assert(ip@.subrange(start as int, ip@.len() as int) =~= ip@.skip(start as int));
        }
        push_char(&mut s, '.');
        push_char(&mut s, d1);
        push_char(&mut s, d2);
        proof {
            assert(s@ =~= fmt_round(ip@, fp@));
        }
        s
    }
}

} // verus!
