//! Character-sequence primitives used by the markup heuristics.
use vstd::prelude::*;

verus! {

/// `s` with every non-overlapping occurrence of `pat` removed, scanning from the left.
pub open spec fn remove_all(s: Seq<char>, pat: Seq<char>) -> Seq<char>
    decreases s.len(),
{
    if pat.len() == 0 || s.len() < pat.len() {
        s
    } else if s.take(pat.len() as int) == pat {
        remove_all(s.skip(pat.len() as int), pat)
    } else {
        seq![s[0]] + remove_all(s.drop_first(), pat)
    }
}

/// The characters of `s` before its first `c`; all of `s` when `c` does not occur.
pub open spec fn prefix_before(s: Seq<char>, c: char) -> Seq<char>
    decreases s.len(),
{
    if s.len() == 0 {
        s
    } else if s[0] == c {
        Seq::empty()
    } else {
        seq![s[0]] + prefix_before(s.drop_first(), c)
    }
}

/// The characters of `s` after its last `c`; all of `s` when `c` does not occur.
pub open spec fn suffix_after(s: Seq<char>, c: char) -> Seq<char>
    decreases s.len(),
{
    if s.len() == 0 {
        s
    } else if s.last() == c {
        Seq::empty()
    } else {
        suffix_after(s.drop_last(), c).push(s.last())
    }
}

/// `p` occurs in `s` as a contiguous run.
pub open spec fn contains(s: Seq<char>, p: Seq<char>) -> bool {
    exists|i: int| 0 <= i <= s.len() - p.len() && #[trigger] s.subrange(i, i + p.len()) == p
}

/// No character of `s` is `c`.
pub open spec fn lacks(s: Seq<char>, c: char) -> bool {
    forall|i: int| 0 <= i < s.len() ==> s[i] != c
}

/// Nothing is removed from a sequence that lacks one of the pattern's characters.
pub proof fn lemma_remove_all_absent(s: Seq<char>, pat: Seq<char>, k: int)
    requires
        0 <= k < pat.len(),
        lacks(s, pat[k]),
    ensures
        remove_all(s, pat) == s,
    decreases s.len(),
{
    if s.len() >= pat.len() {
        assert(s.take(pat.len() as int)[k] != pat[k]);
        lemma_remove_all_absent(s.drop_first(), pat, k);
        assert(seq![s[0]] + s.drop_first() =~= s);
    }
}

/// A front that lacks the pattern's first character passes through removal unchanged.
pub proof fn lemma_remove_all_concat(x: Seq<char>, y: Seq<char>, pat: Seq<char>)
    requires
        pat.len() > 0,
        lacks(x, pat[0]),
    ensures
        remove_all(x + y, pat) == x + remove_all(y, pat),
    decreases x.len(),
{
    let s = x + y;
    if x.len() == 0 {
        assert(s =~= y);
        assert(x + remove_all(y, pat) =~= remove_all(y, pat));
    } else {
        if s.len() >= pat.len() {
            assert(s.take(pat.len() as int)[0] != pat[0]);
        }
        assert(s.drop_first() =~= x.drop_first() + y);
        lemma_remove_all_concat(x.drop_first(), y, pat);
        assert(seq![x[0]] + (x.drop_first() + remove_all(y, pat)) =~= x + remove_all(y, pat));
    }
}

/// The prefix before `c` ends at the first `c`.
pub proof fn lemma_prefix_before_first(x: Seq<char>, c: char, y: Seq<char>)
    requires
        lacks(x, c),
    ensures
        prefix_before(x + seq![c] + y, c) == x,
    decreases x.len(),
{
    let s = x + seq![c] + y;
    if x.len() == 0 {
        assert(s[0] == c);
    } else {
        assert(s.drop_first() =~= x.drop_first() + seq![c] + y);
        lemma_prefix_before_first(x.drop_first(), c, y);
        assert(seq![x[0]] + x.drop_first() =~= x);
    }
}

/// The suffix after `c` starts after the last `c`.
pub proof fn lemma_suffix_after_last(x: Seq<char>, c: char, y: Seq<char>)
    requires
        lacks(y, c),
    ensures
        suffix_after(x + seq![c] + y, c) == y,
    decreases y.len(),
{
    let s = x + seq![c] + y;
    if y.len() == 0 {
        assert(s.last() == c);
    } else {
        assert(s.drop_last() =~= x + seq![c] + y.drop_last());
        lemma_suffix_after_last(x, c, y.drop_last());
        assert(y.drop_last().push(y.last()) =~= y);
    }
}

/// Without `c`, the suffix after `c` is everything.
pub proof fn lemma_suffix_after_absent(s: Seq<char>, c: char)
    requires
        lacks(s, c),
    ensures
        suffix_after(s, c) == s,
    decreases s.len(),
{
    if s.len() > 0 {
        lemma_suffix_after_absent(s.drop_last(), c);
        assert(s.drop_last().push(s.last()) =~= s);
    }
}

/// Relies on String::push: appends the character to the end of the string.
#[verifier::external_body]
fn push_char(s: &mut String, c: char)
    ensures
        final(s)@ == old(s)@.push(c),
{
    s.push(c)
}

/// The characters of a string, in order.
pub fn chars_of(s: &str) -> (r: Vec<char>)
    ensures
        r@ == s@,
{
    let mut r: Vec<char> = Vec::new();
    for c in it: s.chars()
        invariant
            r@ == it.seq().take(it.index() as int),
    {
        r.push(c);
    }
    r
}

/// The string made of the given characters.
pub fn string_of(v: &Vec<char>) -> (r: String)
    ensures
        r@ == v@,
{
    let mut r = String::new();
    let mut i: usize = 0;
    while i < v.len()
        invariant
            i <= v.len(),
            r@ == v@.take(i as int),
        decreases v.len() - i,
    {
        push_char(&mut r, v[i]);
        assert(v@.take(i as int).push(v@[i as int]) =~= v@.take(i + 1));
        i = i + 1;
    }
    assert(v@.take(v.len() as int) =~= v@);
    r
}

/// Whether `pat` occurs in `s` starting at index `i`.
pub fn matches_at(s: &Vec<char>, i: usize, pat: &Vec<char>) -> (r: bool)
    requires
        i + pat.len() <= s.len(),
    ensures
        r == (s@.subrange(i as int, i + pat.len()) == pat@),
{
    let m = pat.len();
    let mut j: usize = 0;
    while j < m
        invariant
            j <= m,
            m == pat.len(),
            i + m <= s.len(),
            forall|k: int| 0 <= k < j ==> s@[i + k] == pat@[k],
        decreases m - j,
    {
        if s[i + j] != pat[j] {
            assert(s@.subrange(i as int, i + m)[j as int] != pat@[j as int]);
            return false;
        }
        j = j + 1;
    }
    assert(s@.subrange(i as int, i + m) =~= pat@);
    true
}

/// Removes every non-overlapping occurrence of `pat` from `s`, scanning from the left.
pub fn remove_all_chars(s: &Vec<char>, pat: &Vec<char>) -> (r: Vec<char>)
    ensures
        r@ == remove_all(s@, pat@),
{
    let n = s.len();
    let m = pat.len();
    let mut r: Vec<char> = Vec::new();
    let mut i: usize = 0;
    assert(s@.skip(0) =~= s@);
    assert(r@ + remove_all(s@, pat@) =~= remove_all(s@, pat@));
    while i < n
        invariant
            i <= n,
            n == s.len(),
            m == pat.len(),
            remove_all(s@, pat@) == r@ + remove_all(s@.skip(i as int), pat@),
        decreases n - i,
    {
        let ghost rest = s@.skip(i as int);
        if m > 0 && m <= n - i && matches_at(s, i, pat) {
            assert(rest.take(m as int) =~= s@.subrange(i as int, i + m));
            assert(rest.skip(m as int) =~= s@.skip(i + m));
            i = i + m;
        } else {
            proof {
                if m > 0 && m <= n - i {
                    assert(rest.take(m as int) =~= s@.subrange(i as int, i + m));
                }
                assert(rest.drop_first() =~= s@.skip(i + 1));
                if m == 0 {
                    assert(remove_all(rest.drop_first(), pat@) == rest.drop_first());
                    assert(rest =~= seq![rest[0]] + rest.drop_first());
                }
            }
            r.push(s[i]);
            i = i + 1;
        }
    }
    assert(s@.skip(n as int) =~= Seq::<char>::empty());
    assert(r@ + Seq::<char>::empty() =~= r@);
    r
}

/// The characters of `s` before its first `c`.
pub fn prefix_before_char(s: &Vec<char>, c: char) -> (r: Vec<char>)
    ensures
        r@ == prefix_before(s@, c),
{
    let n = s.len();
    let mut r: Vec<char> = Vec::new();
    let mut i: usize = 0;
    assert(s@.skip(0) =~= s@);
    assert(r@ + prefix_before(s@, c) =~= prefix_before(s@, c));
    while i < n
        invariant
            i <= n,
            n == s.len(),
            prefix_before(s@, c) == r@ + prefix_before(s@.skip(i as int), c),
        decreases n - i,
    {
        assert(s@.skip(i as int).drop_first() =~= s@.skip(i + 1));
        if s[i] == c {
            assert(r@ + Seq::<char>::empty() =~= r@);
            return r;
        }
        r.push(s[i]);
        i = i + 1;
    }
    assert(s@.skip(n as int) =~= Seq::<char>::empty());
    assert(r@ + Seq::<char>::empty() =~= r@);
    r
}

/// The characters of `s` after its last `c`.
pub fn suffix_after_char(s: &Vec<char>, c: char) -> (r: Vec<char>)
    ensures
        r@ == suffix_after(s@, c),
{
    let n = s.len();
    let mut start: usize = 0;
    let mut i: usize = 0;
    assert(s@.take(0) =~= s@.subrange(0, 0));
    while i < n
        invariant
            start <= i <= n,
            n == s.len(),
            suffix_after(s@.take(i as int), c) == s@.subrange(start as int, i as int),
        decreases n - i,
    {
        assert(s@.take(i + 1).drop_last() =~= s@.take(i as int));
        if s[i] == c {
            start = i + 1;
            assert(s@.subrange(start as int, start as int) =~= Seq::<char>::empty());
        } else {
            assert(s@.subrange(start as int, i as int).push(s@[i as int]) =~= s@.subrange(
                start as int,
                i + 1,
            ));
        }
        i = i + 1;
    }
    assert(s@.take(n as int) =~= s@);
    let mut r: Vec<char> = Vec::new();
    let mut j: usize = start;
    while j < n
        invariant
            start <= j <= n,
            n == s.len(),
            r@ == s@.subrange(start as int, j as int),
        decreases n - j,
    {
        r.push(s[j]);
        assert(r@ =~= s@.subrange(start as int, j + 1));
        j = j + 1;
    }
    r
}

/// Whether `c` occurs in `s`.
pub fn has_char(s: &Vec<char>, c: char) -> (r: bool)
    ensures
        r == !lacks(s@, c),
{
    let mut i: usize = 0;
    while i < s.len()
        invariant
            i <= s.len(),
            forall|j: int| 0 <= j < i ==> s@[j] != c,
        decreases s.len() - i,
    {
        if s[i] == c {
            return true;
        }
        i = i + 1;
    }
    false
}

/// Whether `p` occurs in `s`.
pub fn contains_chars(s: &Vec<char>, p: &Vec<char>) -> (r: bool)
    ensures
        r == contains(s@, p@),
{
    let n = s.len();
    let m = p.len();
    if m > n {
        return false;
    }
    let mut i: usize = 0;
    while i <= n - m
        invariant
            m <= n,
            n == s.len(),
            m == p.len(),
            forall|j: int| 0 <= j < i ==> #[trigger] s@.subrange(j, j + m) != p@,
        decreases n - m + 1 - i,
    {
        if matches_at(s, i, p) {
            return true;
        }
        if i == n - m {
            return false;
        }
        i = i + 1;
    }
    false
}

} // verus!
