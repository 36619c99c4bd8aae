use vstd::prelude::*;

verus! {

/// The characters of `s`, one element each.
pub fn chars_of(s: &str) -> (v: Vec<char>)
    ensures
        v@ == s@,
{
    let n = s.unicode_len();
    let mut v: Vec<char> = Vec::new();
    let mut i: usize = 0;
    while i < n
        invariant
            n == s@.len(),
            i <= n,
            v@ == s@.take(i as int),
        decreases n - i,
    {
        v.push(s.get_char(i));
        i = i + 1;
        assert(v@ =~= s@.take(i as int));
    }
    assert(s@.take(n as int) =~= s@);
    v
}

/// Whether `pat` occurs in `s` starting at index `start`.
pub fn matches_at(s: &Vec<char>, start: usize, pat: &Vec<char>) -> (b: bool)
    requires
        start + pat@.len() <= s@.len(),
    ensures
        b == (s@.subrange(start as int, start + pat@.len()) == pat@),
{
    let m = pat.len();
    let mut k: usize = 0;
    while k < m
        invariant
            m == pat@.len(),
            start + m <= s.len(),
            k <= m,
            forall|j: int| 0 <= j < k ==> s@[start + j] == pat@[j],
        decreases m - k,
    {
        if s[start + k] != pat[k] {
            assert(s@.subrange(start as int, start + m)[k as int] != pat@[k as int]);
            return false;
        }
        k = k + 1;
    }
    assert(s@.subrange(start as int, start + m) =~= pat@);
    true
}

/// `pat` occurs somewhere in `s`.
pub open spec fn occurs_in(pat: Seq<char>, s: Seq<char>) -> bool {
    exists|k: int| 0 <= k && k + pat.len() <= s.len() && #[trigger] s.subrange(k, k + pat.len()) == pat
}

} // verus!
