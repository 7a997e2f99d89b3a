//! Character-sequence primitives: trimming, splitting and searching, each
//! with a spec-level definition and a verified executable counterpart.

use vstd::prelude::*;
use vstd::string::StrSliceExecFns;

verus! {

/// Unicode whitespace (the `White_Space` characters), stripped from line
/// ends and field edges.
pub open spec fn is_space_char(c: char) -> bool {
    let u = c as u32;
    (9 <= u && u <= 13) || u == 32 || u == 0x85 || u == 0xa0 || u == 0x1680 || (0x2000 <= u && u
        <= 0x200a) || u == 0x2028 || u == 0x2029 || u == 0x202f || u == 0x205f || u == 0x3000
}

pub open spec fn trim_start_rec(s: Seq<char>) -> Seq<char>
    decreases s.len(),
{
    if s.len() == 0 {
        s
    } else if is_space_char(s[0]) {
        trim_start_rec(s.drop_first())
    } else {
        s
    }
}

pub open spec fn trim_end_rec(s: Seq<char>) -> Seq<char>
    decreases s.len(),
{
    if s.len() == 0 {
        s
    } else if is_space_char(s.last()) {
        trim_end_rec(s.drop_last())
    } else {
        s
    }
}

/// The sequence with Unicode whitespace removed from both ends.
pub open spec fn trim_spec(s: Seq<char>) -> Seq<char> {
    trim_end_rec(trim_start_rec(s))
}

/// Splitting on a separator, defined structurally from the right; the result
/// always has at least one piece, and none of the pieces holds the separator.
pub open spec fn split_spec(s: Seq<char>, sep: char) -> Seq<Seq<char>>
    decreases s.len(),
{
    if s.len() == 0 {
        seq![Seq::<char>::empty()]
    } else if s.last() == sep {
        split_spec(s.drop_last(), sep).push(Seq::<char>::empty())
    } else {
        let r = split_spec(s.drop_last(), sep);
        r.update(r.len() - 1, r.last().push(s.last()))
    }
}

pub proof fn lemma_split_len(s: Seq<char>, sep: char)
    ensures
        split_spec(s, sep).len() >= 1,
    decreases s.len(),
{
    if s.len() > 0 {
        lemma_split_len(s.drop_last(), sep);
    }
}

/// The part of `s` before its first colon; all of `s` when it has none.
pub open spec fn key_of(s: Seq<char>) -> Seq<char>
    decreases s.len(),
{
    if s.len() == 0 {
        Seq::<char>::empty()
    } else if s[0] == ':' {
        Seq::<char>::empty()
    } else {
        seq![s[0]] + key_of(s.drop_first())
    }
}

/// The part of `s` after its first colon; empty when it has none.
pub open spec fn rest_of(s: Seq<char>) -> Seq<char>
    decreases s.len(),
{
    if s.len() == 0 {
        Seq::<char>::empty()
    } else if s[0] == ':' {
        s.drop_first()
    } else {
        rest_of(s.drop_first())
    }
}

/// `s` with every colon removed.
pub open spec fn remove_colons(s: Seq<char>) -> Seq<char>
    decreases s.len(),
{
    if s.len() == 0 {
        Seq::<char>::empty()
    } else if s[0] == ':' {
        remove_colons(s.drop_first())
    } else {
        seq![s[0]] + remove_colons(s.drop_first())
    }
}

/// Field `i` of a split line; empty when the line has fewer fields.
pub open spec fn field(ps: Seq<Seq<char>>, i: int) -> Seq<char> {
    if 0 <= i < ps.len() {
        ps[i]
    } else {
        Seq::<char>::empty()
    }
}

fn is_space(c: char) -> (r: bool)
    ensures
        r == is_space_char(c),
{
    let u = c as u32;
    (9 <= u && u <= 13) || u == 32 || u == 0x85 || u == 0xa0 || u == 0x1680 || (0x2000 <= u && u
        <= 0x200a) || u == 0x2028 || u == 0x2029 || u == 0x202f || u == 0x205f || u == 0x3000
}

/// The characters of a string slice, in order.
pub fn chars_of(s: &str) -> (r: Vec<char>)
    ensures
        r@ == s@,
{
    let n = s.unicode_len();
    let mut r: Vec<char> = Vec::new();
    let mut i: usize = 0;
    while i < n
        invariant
            i <= n,
            n == s@.len(),
            r@ == s@.subrange(0, i as int),
        decreases n - i,
    {
        r.push(s.get_char(i));
        i += 1;
        proof {
            assert(r@ =~= s@.subrange(0, i as int));
        }
    }
    proof {
        assert(s@.subrange(0, n as int) =~= s@);
    }
    r
}

/// A copy of `v[a..b]`.
pub fn subrange_vec(v: &Vec<char>, a: usize, b: usize) -> (r: Vec<char>)
    requires
        a <= b <= v@.len(),
    ensures
        r@ == v@.subrange(a as int, b as int),
{
    let mut r: Vec<char> = Vec::new();
    let mut i: usize = a;
    while i < b
        invariant
            a <= i <= b <= v@.len(),
            r@ == v@.subrange(a as int, i as int),
        decreases b - i,
    {
        r.push(v[i]);
        i += 1;
        proof {
            assert(r@ =~= v@.subrange(a as int, i as int));
        }
    }
    r
}

proof fn lemma_trim_start_at(s: Seq<char>, a: int)
    requires
        0 <= a <= s.len(),
        forall|k: int| 0 <= k < a ==> is_space_char(s[k]),
        a < s.len() ==> !is_space_char(s[a]),
    ensures
        trim_start_rec(s) == s.skip(a),
    decreases a,
{
    if a == 0 {
        assert(s.skip(0) =~= s);
    } else {
        let s1 = s.drop_first();
        lemma_trim_start_at(s1, a - 1);
        assert(s1.skip(a - 1) =~= s.skip(a));
    }
}

proof fn lemma_trim_end_at(s: Seq<char>, b: int)
    requires
        0 <= b <= s.len(),
        forall|k: int| b <= k < s.len() ==> is_space_char(s[k]),
        b > 0 ==> !is_space_char(s[b - 1]),
    ensures
        trim_end_rec(s) == s.take(b),
    decreases s.len() - b,
{
    if b == s.len() {
        assert(s.take(b) =~= s);
    } else {
        let s1 = s.drop_last();
        lemma_trim_end_at(s1, b);
        assert(s1.take(b) =~= s.take(b));
    }
}

/// `v` with Unicode whitespace removed from both ends.
pub fn trim_chars(v: &Vec<char>) -> (r: Vec<char>)
    ensures
        r@ == trim_spec(v@),
{
    let mut a: usize = 0;
    while a < v.len() && is_space(v[a])
        invariant
            a <= v@.len(),
            forall|k: int| 0 <= k < a ==> is_space_char(v@[k]),
        decreases v@.len() - a,
    {
        a += 1;
    }
    let mut b: usize = v.len();
    while b > a && is_space(v[b - 1])
        invariant
            a <= b <= v@.len(),
            forall|k: int| b <= k < v@.len() ==> is_space_char(v@[k]),
            b > a ==> forall|k: int| 0 <= k < a ==> is_space_char(v@[k]),
        decreases b,
    {
        b -= 1;
    }
    proof {
        lemma_trim_start_at(v@, a as int);
        let t = v@.skip(a as int);
        lemma_trim_end_at(t, b - a);
        assert(v@.subrange(a as int, b as int) =~= t.take(b - a));
    }
    subrange_vec(v, a, b)
}

/// The pieces of `v` between occurrences of `sep`.
pub fn split_char(v: &Vec<char>, sep: char) -> (r: Vec<Vec<char>>)
    ensures
        r@.map_values(|p: Vec<char>| p@) == split_spec(v@, sep),
        r@.len() >= 1,
{
    let mut done: Vec<Vec<char>> = Vec::new();
    let mut cur: Vec<char> = Vec::new();
    let mut i: usize = 0;
    while i < v.len()
        invariant
            i <= v@.len(),
            split_spec(v@.take(i as int), sep) == done@.map_values(|p: Vec<char>| p@).push(
                cur@,
            ),
        decreases v@.len() - i,
    {
        let ghost t = v@.take(i as int);
        let ghost t2 = v@.take(i + 1int);
        proof {
            assert(t2.drop_last() =~= t);
            assert(t2.last() == v@[i as int]);
        }
        if v[i] == sep {
            let ghost old_done = done@;
            let ghost old_cur = cur@;
            done.push(cur);
            cur = Vec::new();
            proof {
                assert(done@.map_values(|p: Vec<char>| p@) =~~= old_done.map_values(
                    |p: Vec<char>| p@,
                ).push(old_cur));
                assert(split_spec(t2, sep) =~~= done@.map_values(|p: Vec<char>| p@).push(cur@));
            }
        } else {
            let c = v[i];
            cur.push(c);
            proof {
                let prev = split_spec(t, sep);
                assert(prev.len() >= 1);
                assert(split_spec(t2, sep) =~~= done@.map_values(|p: Vec<char>| p@).push(cur@));
            }
        }
        i += 1;
    }
    proof {
        assert(v@.take(v@.len() as int) =~= v@);
    }
    done.push(cur);
    proof {
        assert(done@.map_values(|p: Vec<char>| p@) =~~= split_spec(v@, sep));
        lemma_split_len(v@, sep);
    }
    done
}

/// Whether the characters of `v` are exactly those of `s`.
pub fn eq_str(v: &Vec<char>, s: &str) -> (r: bool)
    ensures
        r == (v@ == s@),
{
    let n = s.unicode_len();
    if v.len() != n {
        return false;
    }
    let mut i: usize = 0;
    while i < n
        invariant
            i <= n,
            n == s@.len(),
            v@.len() == n,
            forall|k: int| 0 <= k < i ==> v@[k] == s@[k],
        decreases n - i,
    {
        if v[i] != s.get_char(i) {
            return false;
        }
        i += 1;
    }
    proof {
        assert(v@ =~= s@);
    }
    true
}

proof fn lemma_key_rest_at(s: Seq<char>, j: int)
    requires
        0 <= j <= s.len(),
        forall|k: int| 0 <= k < j ==> s[k] != ':',
        j < s.len() ==> s[j] == ':',
    ensures
        j < s.len() ==> key_of(s) == s.take(j) && rest_of(s) == s.skip(j + 1),
        j == s.len() ==> key_of(s) == s && rest_of(s) == Seq::<char>::empty(),
    decreases s.len(),
{
    if s.len() == 0 {
        assert(key_of(s) =~= s);
    } else if j == 0 {
        if j < s.len() {
            assert(key_of(s) =~= s.take(0));
        }
    } else {
        let s1 = s.drop_first();
        lemma_key_rest_at(s1, j - 1);
        if j < s.len() {
            assert(key_of(s) =~= s.take(j));
            assert(rest_of(s) =~= s.skip(j + 1));
        } else {
            assert(key_of(s) =~= s);
        }
    }
}

/// The parts of `v` before and after its first colon.
pub fn key_rest(v: &Vec<char>) -> (r: (Vec<char>, Vec<char>))
    ensures
        r.0@ == key_of(v@),
        r.1@ == rest_of(v@),
{
    let mut j: usize = 0;
    while j < v.len() && v[j] != ':'
        invariant
            j <= v@.len(),
            forall|k: int| 0 <= k < j ==> v@[k] != ':',
        decreases v@.len() - j,
    {
        j += 1;
    }
    proof {
        lemma_key_rest_at(v@, j as int);
    }
    if j < v.len() {
        let key = subrange_vec(v, 0, j);
        let rest = subrange_vec(v, j + 1, v.len());
        proof {
            assert(v@.subrange(0, j as int) =~= v@.take(j as int));
            assert(v@.subrange(j + 1, v@.len() as int) =~= v@.skip(j + 1));
        }
        (key, rest)
    } else {
        let key = subrange_vec(v, 0, v.len());
        proof {
            assert(v@.subrange(0, v@.len() as int) =~= v@);
        }
        (key, Vec::new())
    }
}

proof fn lemma_remove_colons_push(s: Seq<char>, c: char)
    ensures
        c == ':' ==> remove_colons(s.push(c)) == remove_colons(s),
        c != ':' ==> remove_colons(s.push(c)) == remove_colons(s).push(c),
    decreases s.len(),
{
    if s.len() == 0 {
        assert(s.push(c)[0] == c);
        assert(s.push(c).drop_first() =~= Seq::<char>::empty());
        assert(remove_colons(Seq::<char>::empty()) == Seq::<char>::empty());
        if c != ':' {
            assert(remove_colons(s.push(c)) == seq![c] + Seq::<char>::empty());
            assert(remove_colons(s.push(c)) =~= remove_colons(s).push(c));
        }
    } else {
        assert(s.push(c)[0] == s[0]);
        assert(s.push(c).drop_first() =~= s.drop_first().push(c));
        lemma_remove_colons_push(s.drop_first(), c);
        if s[0] == ':' {
            assert(remove_colons(s.push(c)) == remove_colons(s.drop_first().push(c)));
            assert(remove_colons(s) == remove_colons(s.drop_first()));
        } else {
            assert(remove_colons(s.push(c)) == seq![s[0]] + remove_colons(
                s.drop_first().push(c),
            ));
            assert(remove_colons(s) == seq![s[0]] + remove_colons(s.drop_first()));
        }
        if c != ':' {
            assert(remove_colons(s.push(c)) =~= remove_colons(s).push(c));
        }
    }
}

/// `v` with every colon removed.
pub fn strip_colons(v: &Vec<char>) -> (r: Vec<char>)
    ensures
        r@ == remove_colons(v@),
{
    let mut r: Vec<char> = Vec::new();
    let mut i: usize = 0;
    while i < v.len()
        invariant
            i <= v@.len(),
            r@ == remove_colons(v@.take(i as int)),
        decreases v@.len() - i,
    {
        proof {
            assert(v@.take(i + 1int).drop_last() =~= v@.take(i as int));
            lemma_remove_colons_push(v@.take(i as int), v@[i as int]);
            assert(v@.take(i as int).push(v@[i as int]) =~= v@.take(i + 1int));
        }
        if v[i] != ':' {
            r.push(v[i]);
        }
        i += 1;
    }
    proof {
        assert(v@.take(v@.len() as int) =~= v@);
    }
    r
}

} // verus!
