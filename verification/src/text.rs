//! Character-level text helpers used by the queries and parsers.

use vstd::prelude::*;
use vstd::string::StrSliceExecFns;
use vstd::string::StringExecFns;

verus! {

broadcast use vstd::string::group_string_axioms;

/// `pat` occurs in `s` starting at character index `i`.
pub open spec fn occurs_at(s: Seq<char>, pat: Seq<char>, i: int) -> bool {
    0 <= i && i + pat.len() <= s.len() && s.subrange(i, i + pat.len()) == pat
}

/// `pat` occurs somewhere in `s` (the empty pattern occurs in every text).
pub open spec fn contains_seq(s: Seq<char>, pat: Seq<char>) -> bool {
    exists|i: int| occurs_at(s, pat, i)
}

/// The characters of `s`, in order.
pub fn chars_of(s: &str) -> (v: Vec<char>)
    ensures
        v@ == s@,
{
    let mut v: Vec<char> = Vec::new();
    for c in it: s.chars()
        invariant
            v@ == it.seq().take(it.index() as int),
            it.seq() == s@,
    {
        v.push(c);
    }
    v
}

fn occurs_at_exec(s: &Vec<char>, pat: &Vec<char>, i: usize) -> (b: bool)
    requires
        i + pat.len() <= s.len(),
    ensures
        b == occurs_at(s@, pat@, i as int),
{
    let mut k: usize = 0;
    while k < pat.len()
        invariant
            i + pat.len() <= s.len(),
            k <= pat.len(),
            forall|j: int| 0 <= j < k ==> s@[i + j] == pat@[j],
        decreases pat.len() - k,
    {
        if s[i + k] != pat[k] {
            assert(s@.subrange(i as int, i + pat.len())[k as int] != pat@[k as int]);
            return false;
        }
        k = k + 1;
    }
    assert(s@.subrange(i as int, i + pat.len()) =~= pat@);
    true
}

/// Whether `pat` occurs in `s`.
pub fn seq_contains(s: &Vec<char>, pat: &Vec<char>) -> (b: bool)
    ensures
        b == contains_seq(s@, pat@),
{
    if pat.len() > s.len() {
        return false;
    }
    let last: usize = s.len() - pat.len();
    let mut i: usize = 0;
    loop
        invariant
            i <= last,
            last + pat.len() == s.len(),
            forall|j: int| 0 <= j < i ==> !occurs_at(s@, pat@, j),
        decreases last - i,
    {
        if occurs_at_exec(s, pat, i) {
            return true;
        }
        if i == last {
            assert forall|j: int| !occurs_at(s@, pat@, j) by {
                if 0 <= j && j + pat.len() <= s.len() {
                    assert(j <= last);
                }
            }
            return false;
        }
        i = i + 1;
    }
}

/// Whether `pat` occurs in `s`, as `str::contains` with a string pattern.
pub fn str_contains(s: &str, pat: &str) -> (b: bool)
    ensures
        b == contains_seq(s@, pat@),
{
    let sv = chars_of(s);
    let pv = chars_of(pat);
    seq_contains(&sv, &pv)
}

/// Every non-overlapping occurrence of `pat` in `s`, taken from the left,
/// replaced by `rep`; with an empty `pat`, `rep` stands before every
/// character and at the end (the behaviour of `str::replace`).
pub open spec fn replace_all(s: Seq<char>, pat: Seq<char>, rep: Seq<char>) -> Seq<char>
    decreases s.len(),
{
    if pat.len() == 0 {
        if s.len() == 0 {
            rep
        } else {
            rep + seq![s[0]] + replace_all(s.drop_first(), pat, rep)
        }
    } else if s.len() < pat.len() {
        s
    } else if s.take(pat.len() as int) == pat {
        rep + replace_all(s.skip(pat.len() as int), pat, rep)
    } else {
        seq![s[0]] + replace_all(s.drop_first(), pat, rep)
    }
}

proof fn lemma_no_occurrence_drop_first(s: Seq<char>, pat: Seq<char>)
    requires
        s.len() > 0,
        !contains_seq(s, pat),
    ensures
        !contains_seq(s.drop_first(), pat),
{
    assert forall|i: int| !occurs_at(s.drop_first(), pat, i) by {
        if occurs_at(s.drop_first(), pat, i) {
            assert(s.subrange(i + 1, i + 1 + pat.len()) =~= s.drop_first().subrange(i, i + pat.len()));
            assert(occurs_at(s, pat, i + 1));
        }
    }
}

/// A text in which the pattern does not occur is left as it is.
pub proof fn lemma_replace_without_occurrence(s: Seq<char>, pat: Seq<char>, rep: Seq<char>)
    requires
        pat.len() > 0,
        !contains_seq(s, pat),
    ensures
        replace_all(s, pat, rep) == s,
    decreases s.len(),
{
    if s.len() >= pat.len() {
        assert(s.subrange(0, pat.len() as int) == s.take(pat.len() as int));
        assert(!occurs_at(s, pat, 0));
        lemma_no_occurrence_drop_first(s, pat);
        lemma_replace_without_occurrence(s.drop_first(), pat, rep);
        assert(seq![s[0]] + s.drop_first() =~= s);
    }
}

/// Removing a pattern whose first character occurs nowhere else in it from
/// a text that ends with it, and holds it nowhere else, gives the text
/// before it.
pub proof fn lemma_strip_suffix(x: Seq<char>, pat: Seq<char>)
    requires
        pat.len() > 0,
        forall|j: int| 0 < j < pat.len() ==> #[trigger] pat[j] != pat[0],
        !contains_seq(x, pat),
    ensures
        replace_all(x + pat, pat, Seq::<char>::empty()) == x,
    decreases x.len(),
{
    let s = x + pat;
    let n = pat.len() as int;
    if x.len() == 0 {
        assert(s =~= pat);
        assert(s.take(n) =~= pat);
        assert(s.skip(n) =~= Seq::<char>::empty());
        assert(Seq::<char>::empty() + replace_all(Seq::<char>::empty(), pat, Seq::<char>::empty()) =~= x);
    } else {
        if s.take(n) == pat {
            if x.len() >= n {
                assert(x.subrange(0, n) =~= s.take(n));
                assert(occurs_at(x, pat, 0));
            } else {
                let q = x.len() as int;
                assert(s[q] == pat[0]);
                assert(s.take(n)[q] == pat[q]);
            }
        }
        lemma_no_occurrence_drop_first(x, pat);
        lemma_strip_suffix(x.drop_first(), pat);
        assert(s.drop_first() =~= x.drop_first() + pat);
        assert(seq![x[0]] + x.drop_first() =~= x);
    }
}

/// `s` with every occurrence of `pat` replaced by `rep`, as `str::replace`.
pub fn replace_str(s: &str, pat: &str, rep: &str) -> (res: String)
    ensures
        res@ == replace_all(s@, pat@, rep@),
{
    let sv = chars_of(s);
    let pv = chars_of(pat);
    let n = sv.len();
    let mut res = String::new();
    assert(s@.skip(0) =~= s@);
    assert(res@ + replace_all(s@, pat@, rep@) =~= replace_all(s@, pat@, rep@));
    if pv.len() == 0 {
        let mut i: usize = 0;
        while i < n
            invariant
                n == s@.len(),
                sv@ == s@,
                pv@.len() == 0,
                pat@.len() == 0,
                i <= n,
                res@ + replace_all(s@.skip(i as int), pat@, rep@) == replace_all(s@, pat@, rep@),
            decreases n - i,
        {
            assert(s@.skip(i as int).drop_first() =~= s@.skip(i + 1));
            assert(s@.skip(i as int)[0] == s@[i as int]);
            res.append(rep);
            let one = s.substring_char(i, i + 1);
            assert(one@ =~= seq![s@[i as int]]);
            res.append(one);
            assert(res@ + replace_all(s@.skip(i + 1), pat@, rep@) =~= replace_all(s@, pat@, rep@));
            i = i + 1;
        }
        assert(s@.skip(n as int) =~= Seq::<char>::empty());
        res.append(rep);
        return res;
    }
    let m = pv.len();
    let mut seg: usize = 0;
    let mut i: usize = 0;
    assert(s@.subrange(0, 0) =~= Seq::<char>::empty());
    while i < n
        invariant
            n == s@.len(),
            sv@ == s@,
            pv@ == pat@,
            m == pat@.len(),
            m > 0,
            seg <= i <= n,
            res@ + s@.subrange(seg as int, i as int) + replace_all(s@.skip(i as int), pat@, rep@)
                == replace_all(s@, pat@, rep@),
        decreases n - i,
    {
        let ghost rest = s@.skip(i as int);
        if m <= n - i && occurs_at_exec(&sv, &pv, i) {
            assert(rest.take(m as int) =~= s@.subrange(i as int, i + m));
            assert(rest.skip(m as int) =~= s@.skip(i + m));
            let piece = s.substring_char(seg, i);
            res.append(piece);
            res.append(rep);
            assert(s@.subrange((i + m) as int, (i + m) as int) =~= Seq::<char>::empty());
            assert(res@ + s@.subrange((i + m) as int, (i + m) as int) + replace_all(s@.skip(i + m), pat@, rep@)
                =~= replace_all(s@, pat@, rep@));
            i = i + m;
            seg = i;
        } else {
            if m <= n - i {
                assert(rest.take(m as int) =~= s@.subrange(i as int, i + m));
                assert(rest.take(m as int) != pat@);
                assert(rest.drop_first() =~= s@.skip(i + 1));
                assert(rest[0] == s@[i as int]);
                assert(s@.subrange(seg as int, i + 1) =~= s@.subrange(seg as int, i as int) + seq![s@[i as int]]);
            } else {
                assert(rest.len() < m);
                assert(s@.subrange(seg as int, i as int) + rest =~= s@.subrange(seg as int, i + 1) + s@.skip(i + 1));
                let ghost tail = s@.skip(i + 1);
                assert(tail.len() < m);
            }
            i = i + 1;
        }
    }
    let piece = s.substring_char(seg, n);
    res.append(piece);
    assert(s@.skip(n as int) =~= Seq::<char>::empty());
    res
}

/// Whether two strings hold the same characters.
pub fn str_eq(a: &str, b: &str) -> (r: bool)
    ensures
        r == (a@ == b@),
{
    let av = chars_of(a);
    let bv = chars_of(b);
    if av.len() != bv.len() {
        return false;
    }
    let mut i: usize = 0;
    while i < av.len()
        invariant
            av@ == a@,
            bv@ == b@,
            av.len() == bv.len(),
            i <= av.len(),
            forall|j: int| 0 <= j < i ==> a@[j] == b@[j],
        decreases av.len() - i,
    {
        if av[i] != bv[i] {
            return false;
        }
        i = i + 1;
    }
    assert(a@ =~= b@);
    true
}

/// The bytes `b` spell the ASCII word `w`, one byte per character.
pub open spec fn spells(b: Seq<u8>, w: Seq<char>) -> bool {
    b.len() == w.len() && forall|i: int| 0 <= i < b.len() ==> b[i] as u32 == w[i] as u32
}

/// Whether the bytes `b` spell the word `w` (meant for ASCII words).
pub fn bytes_spell(b: &Vec<u8>, w: &str) -> (r: bool)
    ensures
        r == spells(b@, w@),
{
    let wc = chars_of(w);
    if b.len() != wc.len() {
        return false;
    }
    let mut i: usize = 0;
    while i < b.len()
        invariant
            wc@ == w@,
            b.len() == wc.len(),
            i <= b.len(),
            forall|j: int| 0 <= j < i ==> b@[j] as u32 == w@[j] as u32,
        decreases b.len() - i,
    {
        if (b[i] as u32) != (wc[i] as u32) {
            return false;
        }
        i = i + 1;
    }
    true
}

/// Whether two byte strings are equal.
pub fn bytes_eq(a: &Vec<u8>, b: &Vec<u8>) -> (r: bool)
    ensures
        r == (a@ == b@),
{
    if a.len() != b.len() {
        return false;
    }
    let mut i: usize = 0;
    while i < a.len()
        invariant
            a.len() == b.len(),
            i <= a.len(),
            forall|j: int| 0 <= j < i ==> a@[j] == b@[j],
        decreases a.len() - i,
    {
        if a[i] != b[i] {
            return false;
        }
        i = i + 1;
    }
    assert(a@ =~= b@);
    true
}

} // verus!
