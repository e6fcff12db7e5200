//! Character-sequence utilities shared by the tokenizer and the parsers:
//! conversion between `str`/`String` and `Vec<char>`, whitespace trimming,
//! prefix tests and single-character search.

use vstd::prelude::*;

verus! {

/// Characters stripped by trimming.
pub open spec fn is_space(c: char) -> bool {
    c == ' ' || c == '\t' || c == '\r' || c == '\n'
}

/// Executable twin of `is_space`.
pub fn space_char(c: char) -> (r: bool)
    ensures
        r == is_space(c),
{
    c == ' ' || c == '\t' || c == '\r' || c == '\n'
}

/// The characters of `s`, as an indexable vector.
pub fn str_chars(s: &str) -> (r: Vec<char>)
    ensures
        r@ == s@,
{
    let n = s.unicode_len();
    let mut r: Vec<char> = Vec::new();
    let mut i: usize = 0;
    while i < n
        invariant
            i <= n,
            n == s@.len(),
            r@ == s@.take(i as int),
        decreases n - i,
    {
        r.push(s.get_char(i));
        i = i + 1;
        proof {
            assert(r@ =~= s@.take(i as int));
        }
    }
    proof {
        assert(r@ =~= s@);
    }
    r
}

/// Relies on `String::push`: appends exactly the given character to the end
/// of the string.
#[verifier::external_body]
fn push_char(s: &mut String, c: char)
    ensures
        final(s)@ == old(s)@.push(c),
{
    s.push(c)
}

/// A `String` holding exactly the characters of `v`.
pub fn chars_to_string(v: &[char]) -> (r: String)
    ensures
        r@ == v@,
{
    let mut r = String::new();
    let mut i: usize = 0;
    while i < v.len()
        invariant
            i <= v@.len(),
            r@ == v@.take(i as int),
        decreases v@.len() - i,
    {
        push_char(&mut r, v[i]);
        i = i + 1;
        proof {
            assert(r@ =~= v@.take(i as int));
        }
    }
    proof {
        assert(r@ =~= v@);
    }
    r
}

/// `s` without leading space characters.
pub open spec fn trim_front(s: Seq<char>) -> Seq<char>
    decreases s.len(),
{
    if s.len() > 0 && is_space(s[0]) {
        trim_front(s.drop_first())
    } else {
        s
    }
}

/// `s` without trailing space characters.
pub open spec fn trim_back(s: Seq<char>) -> Seq<char>
    decreases s.len(),
{
    if s.len() > 0 && is_space(s.last()) {
        trim_back(s.drop_last())
    } else {
        s
    }
}

/// `s` without leading and trailing space characters.
pub open spec fn trim_spec(s: Seq<char>) -> Seq<char> {
    trim_back(trim_front(s))
}

/// Trim leading and trailing whitespace.
pub fn trim_chars(v: &[char]) -> (r: Vec<char>)
    ensures
        r@ == trim_spec(v@),
{
    let n = v.len();
    let mut i: usize = 0;
    proof {
        assert(v@.skip(0) =~= v@);
    }
    while i < n && space_char(v[i])
        invariant
            i <= n,
            n == v@.len(),
            trim_front(v@) == trim_front(v@.skip(i as int)),
        decreases n - i,
    {
        proof {
            assert(v@.skip(i as int).drop_first() =~= v@.skip(i as int + 1));
        }
        i = i + 1;
    }
    proof {
        assert(trim_front(v@) =~= v@.skip(i as int));
    }
    let mut j: usize = n;
    while j > i && space_char(v[j - 1])
        invariant
            i <= j <= n,
            n == v@.len(),
            trim_front(v@) == v@.skip(i as int),
            trim_back(v@.skip(i as int)) == trim_back(v@.subrange(i as int, j as int)),
        decreases j,
    {
        proof {
            assert(v@.subrange(i as int, j as int).drop_last()
                =~= v@.subrange(i as int, j as int - 1));
        }
        j = j - 1;
    }
    proof {
        assert(trim_back(v@.subrange(i as int, j as int)) =~= v@.subrange(i as int, j as int));
    }
    let mut r: Vec<char> = Vec::new();
    let mut k: usize = i;
    while k < j
        invariant
            i <= k <= j <= n,
            n == v@.len(),
            r@ == v@.subrange(i as int, k as int),
        decreases j - k,
    {
        r.push(v[k]);
        k = k + 1;
        proof {
            assert(r@ =~= v@.subrange(i as int, k as int));
        }
    }
    r
}

/// Element `k` of the deep view of a token list is the view of element `k`.
pub proof fn lemma_toks_deep_view(v: &Vec<Vec<char>>, k: int)
    requires
        0 <= k < v@.len(),
    ensures
        v.deep_view()[k] == v@[k]@,
        v.deep_view().len() == v@.len(),
{
    assert(v.deep_view()[k] =~= v@[k]@);
}

/// Element `k` of the deep view of a line list is the view of element `k`.
pub proof fn lemma_lines_deep_view(v: &Vec<String>, k: int)
    requires
        0 <= k < v@.len(),
    ensures
        v.deep_view()[k] == v@[k]@,
        v.deep_view().len() == v@.len(),
{
}

/// Copy of the characters of `v` from `a` (inclusive) to `b` (exclusive).
pub fn slice_range_vec(v: &[char], a: usize, b: usize) -> (r: Vec<char>)
    requires
        a <= b <= v@.len(),
    ensures
        r@ == v@.subrange(a as int, b as int),
{
    let mut r: Vec<char> = Vec::new();
    let mut k: usize = a;
    while k < b
        invariant
            a <= k <= b <= v@.len(),
            r@ == v@.subrange(a as int, k as int),
        decreases b - k,
    {
        r.push(v[k]);
        k = k + 1;
        proof {
            assert(r@ =~= v@.subrange(a as int, k as int));
        }
    }
    r
}

/// `p` is an initial segment of `s`.
pub open spec fn has_prefix(s: Seq<char>, p: Seq<char>) -> bool {
    p.len() <= s.len() && s.subrange(0, p.len() as int) == p
}

/// Executable prefix test.
pub fn starts_with_chars(v: &[char], p: &[char]) -> (r: bool)
    ensures
        r == has_prefix(v@, p@),
{
    if p.len() > v.len() {
        proof {
            assert(!has_prefix(v@, p@));
        }
        return false;
    }
    let mut i: usize = 0;
    while i < p.len()
        invariant
            i <= p@.len() <= v@.len(),
            forall|k: int| 0 <= k < i ==> v@[k] == p@[k],
        decreases p@.len() - i,
    {
        if v[i] != p[i] {
            proof {
                assert(v@.subrange(0, p@.len() as int)[i as int] != p@[i as int]);
            }
            return false;
        }
        i = i + 1;
    }
    proof {
        assert(v@.subrange(0, p@.len() as int) =~= p@);
    }
    true
}

/// Executable equality of a character vector against a pattern.
pub fn chars_eq(v: &[char], p: &[char]) -> (r: bool)
    ensures
        r == (v@ == p@),
{
    if v.len() != p.len() {
        proof {
            assert(v@.len() != p@.len());
        }
        return false;
    }
    let r = starts_with_chars(v, p);
    proof {
        assert(v@ =~= v@.subrange(0, p@.len() as int));
    }
    r
}

/// Index of the first occurrence of `d` in `s`, or `s.len()` if absent.
pub open spec fn first_occ(s: Seq<char>, d: char) -> int
    decreases s.len(),
{
    if s.len() == 0 {
        0
    } else if s[0] == d {
        0
    } else {
        1 + first_occ(s.drop_first(), d)
    }
}

/// The first occurrence is a position in `s` holding `d`, with no `d` before
/// it; it equals `s.len()` exactly when `d` is absent.
pub proof fn lemma_first_occ(s: Seq<char>, d: char)
    ensures
        0 <= first_occ(s, d) <= s.len(),
        first_occ(s, d) < s.len() ==> s[first_occ(s, d)] == d,
        forall|k: int| 0 <= k < first_occ(s, d) ==> s[k] != d,
    decreases s.len(),
{
    if s.len() > 0 && s[0] != d {
        lemma_first_occ(s.drop_first(), d);
        assert forall|k: int| 0 <= k < first_occ(s, d) implies s[k] != d by {
            if k > 0 {
                assert(s.drop_first()[k - 1] == s[k]);
            }
        }
    }
}

/// Position of the first `d` in `v`, if any.
pub fn find_char(v: &[char], d: char) -> (r: Option<usize>)
    ensures
        match r {
            Some(i) => i == first_occ(v@, d) && i < v@.len(),
            None => first_occ(v@, d) == v@.len(),
        },
{
    let n = v.len();
    let mut i: usize = 0;
    proof {
        assert(v@.skip(0) =~= v@);
    }
    while i < n && v[i] != d
        invariant
            i <= n,
            n == v@.len(),
            first_occ(v@, d) == i + first_occ(v@.skip(i as int), d),
            forall|k: int| 0 <= k < i ==> v@[k] != d,
        decreases n - i,
    {
        proof {
            assert(v@.skip(i as int).drop_first() =~= v@.skip(i as int + 1));
        }
        i = i + 1;
    }
    proof {
        if i < n {
            assert(first_occ(v@.skip(i as int), d) == 0);
        } else {
            assert(v@.skip(i as int).len() == 0);
        }
    }
    if i < n {
        Some(i)
    } else {
        None
    }
}

/// `d` occurs somewhere in `s`.
pub open spec fn contains_char(s: Seq<char>, d: char) -> bool {
    first_occ(s, d) < s.len()
}

/// Split at the first occurrence of `d`: the parts before and after it.
/// `None` exactly when `d` does not occur.
pub fn split_once_char(v: &[char], d: char) -> (r: Option<(Vec<char>, Vec<char>)>)
    ensures
        match r {
            Some(parts) => {
                &&& contains_char(v@, d)
                &&& parts.0@ == v@.take(first_occ(v@, d))
                &&& parts.1@ == v@.skip(first_occ(v@, d) + 1)
            },
            None => !contains_char(v@, d),
        },
{
    match find_char(v, d) {
        None => None,
        Some(i) => {
            let n = v.len();
            assert(i < n);
            let mut a: Vec<char> = Vec::new();
            let mut k: usize = 0;
            while k < i
                invariant
                    k <= i < v@.len(),
                    a@ == v@.take(k as int),
                decreases i - k,
            {
                a.push(v[k]);
                k = k + 1;
                proof {
                    assert(a@ =~= v@.take(k as int));
                }
            }
            let mut b: Vec<char> = Vec::new();
            let mut k2: usize = i + 1;
            while k2 < v.len()
                invariant
                    i < v@.len(),
                    i + 1 <= k2 <= v@.len(),
                    b@ == v@.subrange(i as int + 1, k2 as int),
                decreases v@.len() - k2,
            {
                b.push(v[k2]);
                k2 = k2 + 1;
                proof {
                    assert(b@ =~= v@.subrange(i as int + 1, k2 as int));
                }
            }
            proof {
                assert(b@ =~= v@.skip(i as int + 1));
            }
            Some((a, b))
        },
    }
}

} // verus!
