//! Trusted boundary for numeric text.
//!
//! The document model stores every sample as decimal text. The wrappers here
//! are the only places where numbers exist as numbers at run time; each
//! result is named by an uninterpreted spec function of the input text alone.

use std::str::FromStr;
use vstd::prelude::*;

use crate::chars::chars_of;
use crate::floatgram::exp_tail_small;
use crate::floatgram::small_exponent;

verus! {

/// Whether `num_bigfloat::BigFloat::parse` accepts this text.
pub uninterp spec fn is_num_text(s: Seq<char>) -> bool;

/// The display text of the number that `s` parses to.
pub uninterp spec fn num_text(s: Seq<char>) -> Seq<char>;

/// The display text of `sqrt(re*re + im*im)`.
pub uninterp spec fn mag_text(re: Seq<char>, im: Seq<char>) -> Seq<char>;

/// The display text of `atan(im / re)`, an angle in radians.
pub uninterp spec fn phase_text(re: Seq<char>, im: Seq<char>) -> Seq<char>;

/// The display text of the angle `rad`, converted from radians to degrees.
pub uninterp spec fn deg_text(rad: Seq<char>) -> Seq<char>;

/// Whether `bigdecimal` can rewrite this numeric text in normalized form.
pub uninterp spec fn is_plain_ok(s: Seq<char>) -> bool;

/// The normalized decimal form of `s`: trailing fractional zeros dropped,
/// written plainly for moderate exponents (the plain-versus-exponential
/// thresholds are constants of the build).
pub uninterp spec fn plain_of(s: Seq<char>) -> Seq<char>;

/// Numeric text holds no CSV delimiter: both display routines write only
/// digits, a sign, a dot, an exponent marker and the letters of `Inf` and
/// `NaN`, never a newline or a comma.
pub open spec fn no_delimiters(s: Seq<char>) -> bool {
    forall|i: int| 0 <= i < s.len() ==> (#[trigger] s[i]) != '\n' && s[i] != ','
}

/// Relies on `num_bigfloat::BigFloat::parse`, which returns `None` exactly on
/// text outside its numeric grammar, and on `BigFloat`'s display routine, a
/// function of the parsed value alone. The precondition keeps the parsed
/// exponent small, away from the parser's own arithmetic limits, so the call
/// cannot panic.
#[verifier::external_body]
pub(crate) fn parse_num_text(v: &Vec<char>) -> (r: Option<String>)
    requires
        small_exponent(v@),
    ensures
        r is Some <==> is_num_text(v@),
        r matches Some(c) ==> c@ == num_text(v@),
        r matches Some(c) ==> no_delimiters(c@),
{
    let s: String = v.iter().collect();
    num_bigfloat::BigFloat::parse(&s).map(|x| x.to_string())
}

/// Relies on `num_bigfloat`: `BigFloat::parse` as above (the precondition
/// keeps both exponents small, so neither call can panic), and the total
/// operations `mul`, `add`, `sqrt`, `div` and `atan` on `BigFloat`, which
/// return values (possibly `Inf` or `NaN`, e.g. for a zero real part) and
/// never panic; the display routine's output reparses under the same
/// grammar, with an exponent of at most a sign and three digits.
#[verifier::external_body]
pub(crate) fn complex_parts(re: &Vec<char>, im: &Vec<char>) -> (r: Option<(String, String)>)
    requires
        small_exponent(re@),
        small_exponent(im@),
    ensures
        r is Some <==> (is_num_text(re@) && is_num_text(im@)),
        r matches Some(c) ==> c.0@ == mag_text(re@, im@),
        r matches Some(c) ==> c.1@ == phase_text(re@, im@),
        r matches Some(c) ==> is_num_text(c.1@),
        r matches Some(c) ==> small_exponent(c.1@),
        r matches Some(c) ==> no_delimiters(c.0@),
        r matches Some(c) ==> no_delimiters(c.1@),
{
    let rs: String = re.iter().collect();
    let is: String = im.iter().collect();
    let rv = num_bigfloat::BigFloat::parse(&rs)?;
    let iv = num_bigfloat::BigFloat::parse(&is)?;
    let mag = rv.mul(&rv).add(&iv.mul(&iv)).sqrt();
    let phase = iv.div(&rv).atan();
    Some((mag.to_string(), phase.to_string()))
}

/// Relies on `num_bigfloat`: `BigFloat::parse` (total on its own display
/// output, which the precondition guarantees), `mul` and `div`, and the `PI`
/// constant; multiplying by 180 and dividing by pi turns radians into
/// degrees.
#[verifier::external_body]
pub(crate) fn to_degrees_text(rad: &String) -> (r: String)
    requires
        is_num_text(rad@),
        small_exponent(rad@),
    ensures
        r@ == deg_text(rad@),
        no_delimiters(r@),
{
    let v = num_bigfloat::BigFloat::parse(rad).unwrap();
    let half_turn = num_bigfloat::BigFloat::parse("180").unwrap();
    v.mul(&half_turn).div(&num_bigfloat::PI).to_string()
}

/// Relies on `bigdecimal::BigDecimal`: `from_str` parses plain and
/// scientific decimal text (and rejects what is not a finite decimal),
/// `normalized` drops trailing fractional zeros, and the display routine
/// writes decimal text, plain for moderate exponents; all are functions of
/// the input text alone. The plain-versus-exponential display thresholds
/// are constants fixed when the crate is built, so the text is a function
/// of the input per build. The precondition keeps the decimal's scale far
/// from `i64`'s range, where `from_str` and `normalized` would otherwise
/// overflow.
#[verifier::external_body]
pub(crate) fn to_plain_text(s: &String) -> (r: Option<String>)
    requires
        small_exponent(s@),
        s@.len() <= 100000,
    ensures
        r is Some <==> is_plain_ok(s@),
        r matches Some(c) ==> c@ == plain_of(s@),
        r matches Some(c) ==> no_delimiters(c@),
{
    bigdecimal::BigDecimal::from_str(s).ok().map(|d| d.normalized().to_string())
}

/// Relies on `std`'s `FromIterator` for `String`: collecting characters
/// yields the string of exactly those characters.
#[verifier::external_body]
pub(crate) fn string_from_chars(v: &Vec<char>) -> (r: String)
    ensures
        r@ == v@,
{
    v.iter().collect()
}

/// The text a sample is stored and printed as: the normalized decimal form
/// where `bigdecimal` can produce one (a finite number of reasonable size),
/// the display text itself otherwise (`Inf`, `NaN`).
pub open spec fn canon_text(t: Seq<char>) -> Seq<char> {
    if t.len() <= 100000 && small_exponent(t) && is_plain_ok(t) {
        plain_of(t)
    } else {
        t
    }
}

/// Rewrites numeric display text in its stored form, [`canon_text`].
pub(crate) fn canonize(s: String) -> (r: String)
    ensures
        r@ == canon_text(s@),
{
    let cs = chars_of(s.as_str());
    if cs.len() <= 100000 && exp_tail_small(&cs) {
        match to_plain_text(&s) {
            Some(p) => p,
            None => s,
        }
    } else {
        s
    }
}

} // verus!
