//! Verified parsing of the header counts: an optional leading plus sign,
//! then decimal digits, with the value required to fit in `usize`.

use vstd::prelude::*;

verus! {

pub open spec fn is_digit(c: char) -> bool {
    48 <= c as u32 <= 57
}

pub open spec fn digit_val(c: char) -> int {
    c as u32 - 48
}

pub open spec fn all_digits(s: Seq<char>) -> bool {
    forall|i: int| 0 <= i < s.len() ==> is_digit(#[trigger] s[i])
}

/// The value of a digit string, most significant digit first.
pub open spec fn digits_val(s: Seq<char>) -> int
    decreases s.len(),
{
    if s.len() == 0 {
        0
    } else {
        digits_val(s.drop_last()) * 10 + digit_val(s.last())
    }
}

/// The number a header count line denotes: present exactly when the text is
/// an optional `+` followed by at least one digit and the value fits.
pub open spec fn usize_of_text(s: Seq<char>) -> Option<int> {
    let d = if s.len() > 0 && s[0] == '+' {
        s.drop_first()
    } else {
        s
    };
    if d.len() > 0 && all_digits(d) && digits_val(d) <= usize::MAX as int {
        Some(digits_val(d))
    } else {
        None
    }
}

proof fn lemma_digits_val_nonneg(s: Seq<char>)
    requires
        all_digits(s),
    ensures
        digits_val(s) >= 0,
    decreases s.len(),
{
    if s.len() > 0 {
        assert(all_digits(s.drop_last()));
        lemma_digits_val_nonneg(s.drop_last());
    }
}

proof fn lemma_digits_prefix_le(s: Seq<char>, j: int)
    requires
        all_digits(s),
        0 <= j <= s.len(),
    ensures
        digits_val(s.take(j)) <= digits_val(s),
    decreases s.len() - j,
{
    if j == s.len() {
        assert(s.take(j) =~= s);
    } else {
        let t = s.take(j + 1);
        assert(t.drop_last() =~= s.take(j));
        assert(all_digits(s.take(j)));
        lemma_digits_val_nonneg(s.take(j));
        assert(digits_val(t) == digits_val(s.take(j)) * 10 + digit_val(t.last()));
        lemma_digits_prefix_le(s, j + 1);
    }
}

/// Parses a header count; `None` exactly when the model gives none.
pub fn parse_usize(v: &Vec<char>) -> (r: Option<usize>)
    ensures
        usize_of_text(v@) matches Some(n) ==> r matches Some(u) && u as int == n,
        usize_of_text(v@) is None ==> r is None,
{
    let start: usize = if v.len() > 0 && v[0] == '+' {
        1
    } else {
        0
    };
    let ghost d = if v@.len() > 0 && v@[0] == '+' {
        v@.drop_first()
    } else {
        v@
    };
    proof {
        assert(d =~= v@.subrange(start as int, v@.len() as int));
    }
    if v.len() == start {
        return None;
    }
    let mut acc: usize = 0;
    let mut i: usize = start;
    while i < v.len()
        invariant
            start <= i <= v@.len(),
            v@.len() > start,
            d == v@.subrange(start as int, v@.len() as int),
            d == (if v@.len() > 0 && v@[0] == '+' {
                v@.drop_first()
            } else {
                v@
            }),
            all_digits(d.take(i - start)),
            acc as int == digits_val(d.take(i - start)),
        decreases v@.len() - i,
    {
        let u = v[i] as u32;
        if u < 48 || u > 57 {
            proof {
                assert(d[i - start] == v@[i as int]);
                assert(!is_digit(d[i - start]));
                assert(!all_digits(d));
                assert(usize_of_text(v@) is None);
            }
            return None;
        }
        let dig = (u - 48) as usize;
        proof {
            assert(d.take(i - start + 1).drop_last() =~= d.take(i - start));
            assert(d.take(i - start + 1).last() == v@[i as int]);
            assert(all_digits(d.take(i - start + 1)));
        }
        if acc > (usize::MAX - dig) / 10 {
            proof {
                vstd::arithmetic::div_mod::lemma_fundamental_div_mod(
                    (usize::MAX - dig) as int,
                    10,
                );
                assert(acc * 10 + dig > usize::MAX as int) by (nonlinear_arith)
                    requires
                        acc as int >= ((usize::MAX - dig) as int) / 10 + 1,
                        (usize::MAX - dig) as int == 10 * (((usize::MAX - dig) as int) / 10) + (
                        (usize::MAX - dig) as int) % 10,
                        ((usize::MAX - dig) as int) % 10 < 10,
                        dig >= 0,
                ;
                assert(digit_val(d.take(i - start + 1).last()) == dig as int);
                assert(digits_val(d.take(i - start + 1)) == acc as int * 10 + dig as int);
                assert(digits_val(d.take(i - start + 1)) > usize::MAX as int);
                lemma_digits_prefix_le_if(d, i - start + 1);
                assert(all_digits(d) ==> digits_val(d) > usize::MAX as int);
                assert(usize_of_text(v@) is None);
            }
            return None;
        }
        proof {
            assert(acc * 10 + dig <= usize::MAX as int) by (nonlinear_arith)
                requires
                    acc as int <= ((usize::MAX - dig) as int) / 10,
                    ((usize::MAX - dig) as int) / 10 * 10 <= (usize::MAX - dig) as int,
                    dig >= 0,
            ;
            vstd::arithmetic::div_mod::lemma_fundamental_div_mod((usize::MAX - dig) as int, 10);
        }
        acc = acc * 10 + dig;
        i += 1;
    }
    proof {
        assert(d.take(d.len() as int) =~= d);
    }
    Some(acc)
}

proof fn lemma_digits_prefix_le_if(s: Seq<char>, j: int)
    requires
        0 <= j <= s.len(),
    ensures
        all_digits(s) ==> digits_val(s.take(j)) <= digits_val(s),
{
    if all_digits(s) {
        lemma_digits_prefix_le(s, j);
    }
}

} // verus!
