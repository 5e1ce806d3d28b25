//! Reading the output of `git diff --name-status`: the paths of the files
//! that were added or modified.

use vstd::prelude::*;
use vstd::string::StrSliceExecFns;
use crate::text::chars_of;

verus! {

/// The index of the first newline at or after `i`, or the length of `s`.
pub open spec fn line_end(s: Seq<char>, i: int) -> int
    decreases s.len() - i,
{
    if i >= s.len() {
        s.len() as int
    } else if s[i] == '\n' {
        i
    } else {
        line_end(s, i + 1)
    }
}

pub proof fn lemma_line_end(s: Seq<char>, i: int)
    requires
        0 <= i <= s.len(),
    ensures
        i <= line_end(s, i) <= s.len(),
        line_end(s, i) < s.len() ==> s[line_end(s, i)] == '\n',
        forall|k: int| i <= k < line_end(s, i) ==> s[k] != '\n',
    decreases s.len() - i,
{
    if i < s.len() && s[i] != '\n' {
        lemma_line_end(s, i + 1);
    }
}

/// The lines of `s` from index `start` on, split at each newline as
/// `str::split('\n')` splits them (a final newline gives a last, empty line).
pub open spec fn lines_from(s: Seq<char>, start: int) -> Seq<Seq<char>>
    decreases s.len() - start,
{
    if start < 0 || start > s.len() {
        Seq::empty()
    } else {
        let e = line_end(s, start);
        proof {
            lemma_line_end(s, start);
        }
        if e >= s.len() {
            seq![s.subrange(start, s.len() as int)]
        } else {
            seq![s.subrange(start, e)] + lines_from(s, e + 1)
        }
    }
}

/// The lines of `s`.
pub open spec fn lines(s: Seq<char>) -> Seq<Seq<char>> {
    lines_from(s, 0)
}

/// A line that reports an added (`A`) or modified (`M`) file.
pub open spec fn is_change(l: Seq<char>) -> bool {
    l.len() > 0 && (l[0] == 'M' || l[0] == 'A')
}

/// A change line whose path starts at byte 2: a second character that is
/// ASCII (`git` puts a tab there).
pub open spec fn line_ok(l: Seq<char>) -> bool {
    is_change(l) ==> (l.len() >= 2 && (l[1] as u32) < 128)
}

/// Every line of `ls` is fine.
pub open spec fn all_lines_ok(ls: Seq<Seq<char>>) -> bool {
    forall|i: int| 0 <= i < ls.len() ==> line_ok(#[trigger] ls[i])
}

/// Every change line of `s` can be cut after its second character.
pub open spec fn name_status_ok(s: Seq<char>) -> bool {
    all_lines_ok(lines(s))
}

proof fn lemma_all_ok_cons(l: Seq<char>, rest: Seq<Seq<char>>)
    ensures
        all_lines_ok(seq![l] + rest) == (line_ok(l) && all_lines_ok(rest)),
{
    let all = seq![l] + rest;
    assert(all[0] == l);
    if all_lines_ok(rest) && line_ok(l) {
        assert forall|i: int| 0 <= i < all.len() implies line_ok(#[trigger] all[i]) by {
            if i > 0 {
                assert(all[i] == rest[i - 1]);
            }
        }
    }
    if all_lines_ok(all) {
        assert forall|i: int| 0 <= i < rest.len() implies line_ok(#[trigger] rest[i]) by {
            assert(all[i + 1] == rest[i]);
        }
    }
}

/// The paths of the change lines of `ls`, in order.
pub open spec fn changed_paths(ls: Seq<Seq<char>>) -> Seq<Seq<char>>
    decreases ls.len(),
{
    if ls.len() == 0 {
        Seq::empty()
    } else {
        (if is_change(ls[0]) { seq![ls[0].skip(2)] } else { Seq::empty() }) + changed_paths(
            ls.drop_first(),
        )
    }
}

pub open spec fn strings_view(v: Seq<String>) -> Seq<Seq<char>> {
    v.map_values(|x: String| x@)
}

proof fn lemma_lines_step(s: Seq<char>, start: int)
    requires
        0 <= start <= s.len(),
        line_end(s, start) < s.len(),
    ensures
        lines_from(s, start) == seq![s.subrange(start, line_end(s, start))] + lines_from(
            s,
            line_end(s, start) + 1,
        ),
{
}

proof fn lemma_changed_cons(l: Seq<char>, rest: Seq<Seq<char>>)
    ensures
        changed_paths(seq![l] + rest) == (if is_change(l) {
            seq![l.skip(2)]
        } else {
            Seq::<Seq<char>>::empty()
        }) + changed_paths(rest),
{
    assert((seq![l] + rest).drop_first() =~= rest);
}

/// The lines put back together, a newline between each two.
pub open spec fn join_lines(ls: Seq<Seq<char>>) -> Seq<char>
    decreases ls.len(),
{
    if ls.len() == 0 {
        Seq::empty()
    } else if ls.len() == 1 {
        ls[0]
    } else {
        ls[0] + seq!['\n'] + join_lines(ls.drop_first())
    }
}

proof fn lemma_lines_from(s: Seq<char>, start: int)
    requires
        0 <= start <= s.len(),
    ensures
        lines_from(s, start).len() >= 1,
        join_lines(lines_from(s, start)) == s.subrange(start, s.len() as int),
        forall|j: int, k: int|
            0 <= j < lines_from(s, start).len() && 0 <= k < lines_from(s, start)[j].len() ==> (
            #[trigger] lines_from(s, start)[j][k]) != '\n',
    decreases s.len() - start,
{
    lemma_line_end(s, start);
    let e = line_end(s, start);
    let ls = lines_from(s, start);
    if e >= s.len() {
        assert(ls == seq![s.subrange(start, s.len() as int)]);
        assert forall|j: int, k: int| 0 <= j < ls.len() && 0 <= k < ls[j].len() implies (
        #[trigger] ls[j][k]) != '\n' by {
            assert(ls[j][k] == s[start + k]);
        }
    } else {
        lemma_line_end(s, start);
        lemma_lines_from(s, e + 1);
        let rest = lines_from(s, e + 1);
        let first = s.subrange(start, e);
        assert(ls == seq![first] + rest);
        assert(ls.drop_first() =~= rest);
        assert(ls[0] == first);
        assert(join_lines(ls) == first + seq!['\n'] + join_lines(rest));
        assert(first + seq!['\n'] + s.subrange(e + 1, s.len() as int) =~= s.subrange(start, s.len() as int));
        assert forall|j: int, k: int| 0 <= j < ls.len() && 0 <= k < ls[j].len() implies (
        #[trigger] ls[j][k]) != '\n' by {
            if j == 0 {
                assert(ls[0][k] == s[start + k]);
            } else {
                assert(ls[j] == rest[j - 1]);
                assert(rest[j - 1][k] == ls[j][k]);
            }
        }
    }
}

/// The lines of a text hold no newline and, put back together with a
/// newline between each two, give the text again; there is always at least
/// one line.
pub proof fn lemma_lines_rejoin(s: Seq<char>)
    ensures
        lines(s).len() >= 1,
        join_lines(lines(s)) == s,
        forall|j: int, k: int|
            0 <= j < lines(s).len() && 0 <= k < lines(s)[j].len() ==> (#[trigger] lines(s)[j][k])
                != '\n',
{
    lemma_lines_from(s, 0);
    assert(s.subrange(0, s.len() as int) =~= s);
}

/// The paths of a run of lines are those of its first part followed by
/// those of the rest, and a single line gives its text from the third
/// character on exactly when it starts with `M` or `A`.
pub proof fn lemma_changed_paths(ls1: Seq<Seq<char>>, ls2: Seq<Seq<char>>, l: Seq<char>)
    ensures
        changed_paths(ls1 + ls2) == changed_paths(ls1) + changed_paths(ls2),
        changed_paths(seq![l]) == (if l.len() > 0 && (l[0] == 'M' || l[0] == 'A') {
            seq![l.skip(2)]
        } else {
            Seq::<Seq<char>>::empty()
        }),
    decreases ls1.len(),
{
    lemma_changed_cons(l, Seq::empty());
    assert(seq![l] + Seq::<Seq<char>>::empty() =~= seq![l]);
    assert(changed_paths(Seq::<Seq<char>>::empty()) == Seq::<Seq<char>>::empty());
    if ls1.len() == 0 {
        assert(ls1 + ls2 =~= ls2);
        assert(changed_paths(ls1) + changed_paths(ls2) =~= changed_paths(ls2));
    } else {
        lemma_changed_paths(ls1.drop_first(), ls2, l);
        assert((ls1 + ls2).drop_first() =~= ls1.drop_first() + ls2);
        assert((ls1 + ls2)[0] == ls1[0]);
    }
}

/// Whether every change line of `output` can be cut after its second
/// character, which `changed_files` needs.
pub fn name_status_well_formed(output: &str) -> (r: bool)
    ensures
        r == name_status_ok(output@),
{
    let sv = chars_of(output);
    let n = sv.len();
    let ghost s = output@;
    let mut start: usize = 0;
    loop
        invariant
            sv@ == s,
            s == output@,
            n == s.len(),
            start <= n,
            name_status_ok(s) == all_lines_ok(lines_from(s, start as int)),
        decreases n - start,
    {
        let mut e: usize = start;
        while e < n && sv[e] != '\n'
            invariant
                sv@ == s,
                n == s.len(),
                start <= e <= n,
                line_end(s, start as int) == line_end(s, e as int),
            decreases n - e,
        {
            e = e + 1;
        }
        proof {
            lemma_line_end(s, start as int);
        }
        let ghost line = s.subrange(start as int, e as int);
        let ghost rest = if e >= n {
            Seq::<Seq<char>>::empty()
        } else {
            lines_from(s, e + 1)
        };
        proof {
            if e < n {
                lemma_lines_step(s, start as int);
            } else {
                assert(lines_from(s, start as int) =~= seq![line] + rest);
            }
            lemma_all_ok_cons(line, rest);
        }
        let ok = if e > start && (sv[start] == 'M' || sv[start] == 'A') {
            e - start >= 2 && (sv[start + 1] as u32) < 128
        } else {
            true
        };
        assert(ok == line_ok(line));
        if e >= n || !ok {
            return ok;
        }
        start = e + 1;
    }
}

/// The paths of the added and modified files in the output of
/// `git diff --name-status`: every line that starts with `M` or `A`, from
/// its third character on.
pub fn changed_files(output: &str) -> (r: Vec<String>)
    requires
        name_status_ok(output@),
    ensures
        strings_view(r@) == changed_paths(lines(output@)),
{
    let sv = chars_of(output);
    let n = sv.len();
    let ghost s = output@;
    let mut r: Vec<String> = Vec::new();
    let mut start: usize = 0;
    assert(strings_view(r@) =~= Seq::<Seq<char>>::empty());
    loop
        invariant
            sv@ == s,
            s == output@,
            n == s.len(),
            start <= n,
            all_lines_ok(lines_from(s, start as int)),
            changed_paths(lines(s)) == strings_view(r@) + changed_paths(lines_from(s, start as int)),
        decreases n - start,
    {
        let mut e: usize = start;
        while e < n && sv[e] != '\n'
            invariant
                sv@ == s,
                n == s.len(),
                start <= e <= n,
                line_end(s, start as int) == line_end(s, e as int),
            decreases n - e,
        {
            e = e + 1;
        }
        proof {
            lemma_line_end(s, start as int);
        }
        let ghost line = s.subrange(start as int, e as int);
        let ghost rest = if e >= n {
            Seq::<Seq<char>>::empty()
        } else {
            lines_from(s, e + 1)
        };
        proof {
            if e < n {
                lemma_lines_step(s, start as int);
            } else {
                assert(lines_from(s, start as int) =~= seq![line] + rest);
            }
            lemma_all_ok_cons(line, rest);
            lemma_changed_cons(line, rest);
        }
        let ghost before = r@;
        if e > start && (sv[start] == 'M' || sv[start] == 'A') {
            let path = output.substring_char(start + 2, e).to_owned();
            assert(path@ =~= line.skip(2));
            r.push(path);
            assert(strings_view(r@) =~= strings_view(before) + seq![line.skip(2)]);
        } else {
            assert(!is_change(line));
        }
        if e >= n {
            assert(changed_paths(rest) =~= Seq::<Seq<char>>::empty());
            assert(strings_view(r@) =~= changed_paths(lines(s)));
            return r;
        }
        start = e + 1;
    }
}

} // verus!
