//! The grammar of a numeric sample: an optional sign, then `inf`,
//! `infinity` or `nan` (any case) or a decimal number with an optional
//! fraction and exponent. A sample outside this grammar is malformed. The
//! exponent part is limited to nine characters, which keeps every exponent
//! the trusted numeric kernel ever sees far from its arithmetic limits.

use vstd::prelude::*;

use crate::intparse::all_digits;
use crate::intparse::is_digit;

verus! {

/// The number of characters strictly after the first `e` or `E`; zero when
/// there is none.
pub open spec fn exp_tail_len(s: Seq<char>) -> int
    decreases s.len(),
{
    if s.len() == 0 {
        0
    } else if s[0] == 'e' || s[0] == 'E' {
        s.len() - 1
    } else {
        exp_tail_len(s.drop_first())
    }
}

/// Whatever follows the first exponent marker is at most nine characters.
pub open spec fn small_exponent(s: Seq<char>) -> bool {
    exp_tail_len(s) <= 9
}

/// Case-insensitive match of `c` against the lower-case letter `l`.
pub open spec fn ci_eq(c: char, l: char) -> bool {
    c == l || c as u32 + 32 == l as u32
}

pub open spec fn is_inf_text(b: Seq<char>) -> bool {
    ||| (b.len() == 3 && ci_eq(b[0], 'i') && ci_eq(b[1], 'n') && ci_eq(b[2], 'f'))
    ||| (b.len() == 8 && ci_eq(b[0], 'i') && ci_eq(b[1], 'n') && ci_eq(b[2], 'f') && ci_eq(
        b[3],
        'i',
    ) && ci_eq(b[4], 'n') && ci_eq(b[5], 'i') && ci_eq(b[6], 't') && ci_eq(b[7], 'y'))
}

pub open spec fn is_nan_text(b: Seq<char>) -> bool {
    b.len() == 3 && ci_eq(b[0], 'n') && ci_eq(b[1], 'a') && ci_eq(b[2], 'n')
}

/// The index of the first `.`; the length when there is none.
pub open spec fn ix_of_dot(s: Seq<char>) -> int
    decreases s.len(),
{
    if s.len() == 0 {
        0
    } else if s[0] == '.' {
        0
    } else {
        1 + ix_of_dot(s.drop_first())
    }
}

/// The index of the first `e` or `E`; the length when there is none.
pub open spec fn ix_of_exp(s: Seq<char>) -> int
    decreases s.len(),
{
    if s.len() == 0 {
        0
    } else if s[0] == 'e' || s[0] == 'E' {
        0
    } else {
        1 + ix_of_exp(s.drop_first())
    }
}

/// Digits, with at most one dot and at least one digit: `1`, `1.`, `1.5`,
/// `.5`.
pub open spec fn is_mantissa_text(m: Seq<char>) -> bool {
    let d = ix_of_dot(m);
    if d < m.len() {
        &&& all_digits(m.take(d))
        &&& all_digits(m.skip(d + 1))
        &&& (d > 0 || d + 1 < m.len())
    } else {
        m.len() > 0 && all_digits(m)
    }
}

/// An exponent: an optional sign, then at least one digit.
pub open spec fn is_exp_text(e: Seq<char>) -> bool {
    let d = if e.len() > 0 && (e[0] == '+' || e[0] == '-') {
        e.drop_first()
    } else {
        e
    };
    d.len() > 0 && all_digits(d)
}

/// A mantissa with an optional exponent part.
pub open spec fn is_number_text(b: Seq<char>) -> bool {
    let j = ix_of_exp(b);
    if j < b.len() {
        is_mantissa_text(b.take(j)) && is_exp_text(b.skip(j + 1))
    } else {
        is_mantissa_text(b)
    }
}

/// The whole sample grammar.
pub open spec fn is_float_text(s: Seq<char>) -> bool {
    let b = if s.len() > 0 && (s[0] == '+' || s[0] == '-') {
        s.drop_first()
    } else {
        s
    };
    small_exponent(s) && (is_inf_text(b) || is_nan_text(b) || is_number_text(b))
}

proof fn lemma_exp_tail_at(s: Seq<char>, j: int)
    requires
        0 <= j <= s.len(),
        forall|k: int| 0 <= k < j ==> s[k] != 'e' && s[k] != 'E',
        j < s.len() ==> (s[j] == 'e' || s[j] == 'E'),
    ensures
        exp_tail_len(s) == if j < s.len() {
            s.len() - j - 1
        } else {
            0int
        },
        ix_of_exp(s) == j,
    decreases j,
{
    if j == 0 {
        if s.len() == 0 {
        }
    } else {
        let s1 = s.drop_first();
        lemma_exp_tail_at(s1, j - 1);
    }
}

proof fn lemma_ix_dot_at(s: Seq<char>, j: int)
    requires
        0 <= j <= s.len(),
        forall|k: int| 0 <= k < j ==> s[k] != '.',
        j < s.len() ==> s[j] == '.',
    ensures
        ix_of_dot(s) == j,
    decreases j,
{
    if j > 0 {
        lemma_ix_dot_at(s.drop_first(), j - 1);
    }
}

fn is_digit_exec(c: char) -> (r: bool)
    ensures
        r == is_digit(c),
{
    let u = c as u32;
    48 <= u && u <= 57
}

/// Whether `v[lo..hi]` is digits only (an empty range is).
fn all_digits_range(v: &Vec<char>, lo: usize, hi: usize) -> (r: bool)
    requires
        lo <= hi <= v@.len(),
    ensures
        r == all_digits(v@.subrange(lo as int, hi as int)),
{
    let ghost w = v@.subrange(lo as int, hi as int);
    let mut i: usize = lo;
    while i < hi
        invariant
            lo <= i <= hi <= v@.len(),
            w == v@.subrange(lo as int, hi as int),
            forall|k: int| 0 <= k < i - lo ==> is_digit(#[trigger] w[k]),
        decreases hi - i,
    {
        if !is_digit_exec(v[i]) {
            proof {
                assert(w[i - lo] == v@[i as int]);
                assert(!all_digits(w));
            }
            return false;
        }
        i += 1;
    }
    true
}

fn ci_eq_exec(c: char, l: char) -> (r: bool)
    ensures
        r == ci_eq(c, l),
{
    c == l || c as u32 + 32 == l as u32
}

/// Whether the characters after the first exponent marker number at most
/// nine.
pub fn exp_tail_small(v: &Vec<char>) -> (r: bool)
    ensures
        r == small_exponent(v@),
{
    let mut j: usize = 0;
    while j < v.len() && v[j] != 'e' && v[j] != 'E'
        invariant
            j <= v@.len(),
            forall|k: int| 0 <= k < j ==> v@[k] != 'e' && v@[k] != 'E',
        decreases v@.len() - j,
    {
        j += 1;
    }
    proof {
        lemma_exp_tail_at(v@, j as int);
    }
    if j < v.len() {
        v.len() - j - 1 <= 9
    } else {
        true
    }
}

/// Whether `v` is a sample in the grammar, [`is_float_text`].
#[verifier::rlimit(60)]
pub fn check_float_text(v: &Vec<char>) -> (r: bool)
    ensures
        r == is_float_text(v@),
{
    if !exp_tail_small(v) {
        return false;
    }
    let start: usize = if v.len() > 0 && (v[0] == '+' || v[0] == '-') {
        1
    } else {
        0
    };
    let b = crate::chars::subrange_vec(v, start, v.len());
    let ghost bv = if v@.len() > 0 && (v@[0] == '+' || v@[0] == '-') {
        v@.drop_first()
    } else {
        v@
    };
    proof {
        assert(b@ =~= bv);
    }
    if b.len() == 3 && ci_eq_exec(b[0], 'i') && ci_eq_exec(b[1], 'n') && ci_eq_exec(b[2], 'f') {
        return true;
    }
    if b.len() == 8 && ci_eq_exec(b[0], 'i') && ci_eq_exec(b[1], 'n') && ci_eq_exec(b[2], 'f')
        && ci_eq_exec(b[3], 'i') && ci_eq_exec(b[4], 'n') && ci_eq_exec(b[5], 'i') && ci_eq_exec(
        b[6],
        't',
    ) && ci_eq_exec(b[7], 'y') {
        return true;
    }
    if b.len() == 3 && ci_eq_exec(b[0], 'n') && ci_eq_exec(b[1], 'a') && ci_eq_exec(b[2], 'n') {
        return true;
    }
    let mut je: usize = 0;
    while je < b.len() && b[je] != 'e' && b[je] != 'E'
        invariant
            je <= b@.len(),
            forall|k: int| 0 <= k < je ==> b@[k] != 'e' && b@[k] != 'E',
        decreases b@.len() - je,
    {
        je += 1;
    }
    proof {
        lemma_exp_tail_at(b@, je as int);
    }
    let ghost m = b@.take(je as int);
    proof {
        if je == b.len() {
            assert(m =~= b@);
        }
    }
    let mut jd: usize = 0;
    while jd < je && b[jd] != '.'
        invariant
            jd <= je <= b@.len(),
            forall|k: int| 0 <= k < jd ==> b@[k] != '.',
        decreases je - jd,
    {
        jd += 1;
    }
    proof {
        assert(forall|k: int| 0 <= k < jd ==> m[k] == b@[k]);
        lemma_ix_dot_at(m, jd as int);
    }
    let mantissa_ok: bool = if jd < je {
        proof {
            assert(m.take(jd as int) =~= b@.subrange(0, jd as int));
            assert(m.skip(jd + 1) =~= b@.subrange(jd + 1, je as int));
        }
        let int_ok = all_digits_range(&b, 0, jd);
        let frac_ok = all_digits_range(&b, jd + 1, je);
        int_ok && frac_ok && (jd > 0 || jd + 1 < je)
    } else {
        proof {
            assert(m =~= b@.subrange(0, je as int));
        }
        je > 0 && all_digits_range(&b, 0, je)
    };
    if !mantissa_ok {
        return false;
    }
    if je < b.len() {
        let ghost e = b@.skip(je + 1);
        let estart: usize = if je + 1 < b.len() && (b[je + 1] == '+' || b[je + 1] == '-') {
            je + 2
        } else {
            je + 1
        };
        let ghost d = if e.len() > 0 && (e[0] == '+' || e[0] == '-') {
            e.drop_first()
        } else {
            e
        };
        proof {
            assert(d =~= b@.subrange(estart as int, b@.len() as int));
        }
        estart < b.len() && all_digits_range(&b, estart, b.len())
    } else {
        true
    }
}

} // verus!
