//! Selecting the entries of a source folder: by a query on their names
//! (a substring, a case-insensitive substring or a regular expression) and
//! by a text that their contents must hold.

use vstd::prelude::*;
use crate::text::{contains_seq, occurs_at, str_contains};

verus! {

#[verifier::external_type_specification]
#[verifier::external_body]
pub struct ExRegexError(regex::Error);

/// Whether `regex::Regex::new` accepts this pattern: its syntax is valid and
/// the compiled program stays under the crate's default size limit.
pub uninterp spec fn regex_compiles(pattern: Seq<char>) -> bool;

/// Whether the regular expression `pattern` matches somewhere in `haystack`
/// (`regex::Regex::is_match`).
pub uninterp spec fn regex_finds(pattern: Seq<char>, haystack: Seq<char>) -> bool;

/// The lowercase form of a text (`str::to_lowercase`, Unicode rules).
pub uninterp spec fn lowercase(s: Seq<char>) -> Seq<char>;

/// The text holds ASCII characters only.
pub open spec fn is_ascii_text(s: Seq<char>) -> bool {
    forall|i: int| 0 <= i < s.len() ==> (#[trigger] s[i] as u32) < 128
}

/// An ASCII capital letter turned into its small letter; any other
/// character unchanged.
pub open spec fn ascii_lower(c: char) -> char {
    if 65 <= (c as u32) <= 90 {
        ((c as u32) + 32) as char
    } else {
        c
    }
}

/// The text with every ASCII capital letter made small.
pub open spec fn ascii_fold(s: Seq<char>) -> Seq<char> {
    s.map_values(|c: char| ascii_lower(c))
}

/// Calls `regex::Regex::new` on `pattern` and, when it succeeds, the
/// compiled regex's `is_match` on each haystack in turn. The contract claims
/// that the call fails exactly on the patterns that `regex_compiles` refuses,
/// and that each answer is `regex_finds` of this pattern and that haystack.
#[verifier::external_body]
fn regex_find_each(pattern: &str, haystacks: &Vec<String>) -> (r: Result<Vec<bool>, regex::Error>)
    ensures
        r is Ok <==> regex_compiles(pattern@),
        r matches Ok(v) ==> v@.len() == haystacks@.len() && forall|i: int|
            0 <= i < v@.len() ==> v@[i] == regex_finds(pattern@, #[trigger] haystacks@[i]@),
{
    let re = regex::Regex::new(pattern)?;
    let mut found = Vec::with_capacity(haystacks.len());
    for h in haystacks.iter() {
        found.push(re.is_match(h));
    }
    Ok(found)
}

/// Calls `str::to_lowercase`. The contract claims that the result is the
/// text named by `lowercase` and, for an all-ASCII text, what the Unicode
/// lowercase mapping gives there: each capital letter made small, every
/// other character kept, one for one.
#[verifier::external_body]
fn to_lowercase(s: &str) -> (r: String)
    ensures
        r@ == lowercase(s@),
        is_ascii_text(s@) ==> r@ == ascii_fold(s@),
{
    s.to_lowercase()
}

/// How a query is compared with file names.
#[derive(PartialEq, Eq, Structural, Clone, Copy, Debug)]
pub enum QueryMode {
    /// The name holds the query.
    Substring,
    /// The lowercase name holds the lowercase query.
    IgnoreCase,
    /// The query is a regular expression that matches in the name.
    Regex,
}

/// The query could not be compiled as a regular expression.
#[derive(PartialEq, Eq, Structural, Clone, Copy, Debug)]
pub enum QueryError {
    InvalidRegex,
}

/// A directory entry as the queries see it: its name (`None` when it is not
/// valid UTF-8) and, when a content filter is in use, its contents (`None`
/// when they could not be read as text).
pub struct EntryInfo {
    pub name: Option<String>,
    pub contents: Option<String>,
}

/// The mode given by the flags: a regex when asked, otherwise case-blind
/// when asked, otherwise a plain substring.
pub open spec fn mode_of(regex: bool, ignore_case: bool) -> QueryMode {
    if regex {
        QueryMode::Regex
    } else if ignore_case {
        QueryMode::IgnoreCase
    } else {
        QueryMode::Substring
    }
}

/// Whether a name matches the query in this mode.
pub open spec fn name_matches(mode: QueryMode, query: Seq<char>, name: Seq<char>) -> bool {
    match mode {
        QueryMode::Substring => contains_seq(name, query),
        QueryMode::IgnoreCase => contains_seq(lowercase(name), lowercase(query)),
        QueryMode::Regex => regex_finds(query, name),
    }
}

/// Whether an entry passes the content filter.
pub open spec fn contents_ok(e: EntryInfo, containing: Option<Seq<char>>) -> bool {
    match containing {
        None => true,
        Some(v) => e.contents matches Some(c) && contains_seq(c@, v),
    }
}

/// The view of an optional filter text.
pub open spec fn opt_view(o: Option<String>) -> Option<Seq<char>> {
    match o {
        Some(s) => Some(s@),
        None => None,
    }
}

/// Whether an entry is kept by the query.
pub open spec fn entry_selected(
    e: EntryInfo,
    mode: QueryMode,
    query: Seq<char>,
    containing: Option<Seq<char>>,
) -> bool {
    &&& e.name matches Some(n) && name_matches(mode, query, n@)
    &&& contents_ok(e, containing)
}

/// The content filter is not affected by the query mode: an entry whose
/// name matches passes the same filter whether the query is a substring, a
/// case-blind substring or a regex, and the filter text is matched
/// literally and with its case.
pub proof fn lemma_containing_ignores_mode(
    e: EntryInfo,
    m1: QueryMode,
    q1: Seq<char>,
    m2: QueryMode,
    q2: Seq<char>,
    containing: Option<Seq<char>>,
)
    requires
        e.name matches Some(n) && name_matches(m1, q1, n@) && name_matches(m2, q2, n@),
    ensures
        entry_selected(e, m1, q1, containing) == entry_selected(e, m2, q2, containing),
        containing matches Some(v) ==> (entry_selected(e, m1, q1, containing) <==> (
        e.contents matches Some(c) && contains_seq(c@, v))),
{
}

/// The indices below `n` that `keep` accepts, in increasing order.
pub open spec fn select(n: nat, keep: spec_fn(int) -> bool) -> Seq<usize>
    decreases n,
{
    if n == 0 {
        Seq::empty()
    } else {
        select((n - 1) as nat, keep) + (if keep(n - 1) {
            seq![(n - 1) as usize]
        } else {
            Seq::empty()
        })
    }
}

/// A selection lists each accepted index exactly once, in increasing order,
/// and nothing else: the entries kept by a query come in directory order.
pub proof fn lemma_select(n: nat, keep: spec_fn(int) -> bool)
    requires
        n <= usize::MAX,
    ensures
        forall|k: int|
            0 <= k < select(n, keep).len() ==> (#[trigger] select(n, keep)[k]) < n && keep(
                select(n, keep)[k] as int,
            ),
        forall|a: int, b: int|
            0 <= a < b < select(n, keep).len() ==> (#[trigger] select(n, keep)[a]) < (
            #[trigger] select(n, keep)[b]),
        forall|i: int| 0 <= i < n && keep(i) ==> #[trigger] select(n, keep).contains(i as usize),
    decreases n,
{
    if n > 0 {
        let m = (n - 1) as nat;
        lemma_select(m, keep);
        let prev = select(m, keep);
        let cur = select(n, keep);
        assert forall|k: int| 0 <= k < prev.len() implies cur[k] == prev[k] by {}
        if keep(m as int) {
            assert(cur == prev.push(m as usize));
            assert(cur[prev.len() as int] == m as usize);
        } else {
            assert(cur =~= prev);
        }
        assert forall|i: int| 0 <= i < n && keep(i) implies #[trigger] cur.contains(i as usize) by {
            if i < m {
                assert(prev.contains(i as usize));
                let k = choose|k: int| 0 <= k < prev.len() && prev[k] == i as usize;
                assert(cur[k] == i as usize);
            } else {
                assert(cur[prev.len() as int] == i as usize);
            }
        }
    }
}

/// The entries kept by every query of `queries` in turn, one list after the
/// other.
pub open spec fn select_all_queries(
    entries: Seq<EntryInfo>,
    queries: Seq<String>,
    mode: QueryMode,
    containing: Option<Seq<char>>,
) -> Seq<usize>
    decreases queries.len(),
{
    if queries.len() == 0 {
        Seq::empty()
    } else {
        let q = queries.last()@;
        select_all_queries(entries, queries.drop_last(), mode, containing) + select(
            entries.len(),
            |i: int| entry_selected(entries[i], mode, q, containing),
        )
    }
}

/// Whether the entry passes the content filter.
fn passes_filter(e: &EntryInfo, containing: &Option<String>) -> (r: bool)
    ensures
        r == contents_ok(*e, opt_view(*containing)),
{
    match containing {
        None => true,
        Some(v) => match &e.contents {
            Some(c) => str_contains(c.as_str(), v.as_str()),
            None => false,
        },
    }
}

/// The entries that pass the content filter, or all of them without one.
pub fn query_all_files(entries: &Vec<EntryInfo>, containing: &Option<String>) -> (r: Vec<usize>)
    ensures
        r@ == select(entries.len() as nat, |i: int| contents_ok(entries@[i], opt_view(*containing))),
{
    let ghost keep = |i: int| contents_ok(entries@[i], opt_view(*containing));
    let mut r: Vec<usize> = Vec::new();
    let mut i: usize = 0;
    while i < entries.len()
        invariant
            i <= entries.len(),
            keep == (|i: int| contents_ok(entries@[i], opt_view(*containing))),
            r@ == select(i as nat, keep),
        decreases entries.len() - i,
    {
        if passes_filter(&entries[i], containing) {
            r.push(i);
        }
        assert(select((i + 1) as nat, keep) =~= r@);
        i = i + 1;
    }
    r
}

/// Whether an entry is kept in case-blind mode when its name and the query
/// are ASCII: the name with small letters holds the query with small letters.
pub open spec fn entry_selected_folded(e: EntryInfo, query: Seq<char>, containing: Option<Seq<char>>) -> bool {
    &&& e.name matches Some(n) && contains_seq(ascii_fold(n@), ascii_fold(query))
    &&& contents_ok(e, containing)
}

/// Every entry name that is valid UTF-8 is ASCII.
pub open spec fn names_ascii(entries: Seq<EntryInfo>) -> bool {
    forall|i: int|
        0 <= i < entries.len() ==> ((#[trigger] entries[i]).name matches Some(n) ==> is_ascii_text(
            n@,
        ))
}

/// Whether a name matches the query in substring or case-blind mode;
/// `lower_query` is the lowercase query in case-blind mode.
fn matches_name(mode: QueryMode, query: &str, lower_query: &String, name: &str) -> (r: bool)
    requires
        mode != QueryMode::Regex,
        mode == QueryMode::IgnoreCase ==> lower_query@ == lowercase(query@),
    ensures
        r == name_matches(mode, query@, name@),
        mode == QueryMode::IgnoreCase && is_ascii_text(name@) ==> lowercase(name@) == ascii_fold(
            name@,
        ),
{
    match mode {
        QueryMode::IgnoreCase => {
            let lower_name = to_lowercase(name);
            str_contains(lower_name.as_str(), lower_query.as_str())
        },
        _ => str_contains(name, query),
    }
}

/// Two selections agree when their tests agree below `n`.
proof fn lemma_select_ext(n: nat, k1: spec_fn(int) -> bool, k2: spec_fn(int) -> bool)
    requires
        forall|i: int| 0 <= i < n ==> #[trigger] k1(i) == k2(i),
    ensures
        select(n, k1) == select(n, k2),
    decreases n,
{
    if n > 0 {
        lemma_select_ext((n - 1) as nat, k1, k2);
    }
}

/// The entries whose name matches `query` (as a regex when `regex` is set,
/// ignoring case when `ignore_case` is set) and that pass the content
/// filter; an error when `regex` is set and the query is no valid regex.
pub fn execute_query(
    entries: &Vec<EntryInfo>,
    query: &str,
    regex: bool,
    ignore_case: bool,
    containing: &Option<String>,
) -> (r: Result<Vec<usize>, QueryError>)
    ensures
        r is Err <==> (regex && !regex_compiles(query@)),
        r matches Ok(v) ==> v@ == select(
            entries.len() as nat,
            |i: int|
                entry_selected(entries@[i], mode_of(regex, ignore_case), query@, opt_view(*containing)),
        ),
        r matches Ok(v) ==> (!regex && ignore_case && is_ascii_text(query@) && names_ascii(entries@)
            ==> v@ == select(
            entries.len() as nat,
            |i: int| entry_selected_folded(entries@[i], query@, opt_view(*containing)),
        )),
{
    let mode = if regex {
        QueryMode::Regex
    } else if ignore_case {
        QueryMode::IgnoreCase
    } else {
        QueryMode::Substring
    };
    let mut names: Vec<String> = Vec::new();
    let found: Vec<bool> = if regex {
        let mut k: usize = 0;
        while k < entries.len()
            invariant
                k <= entries.len(),
                names@.len() == k,
                forall|j: int|
                    0 <= j < k ==> (entries@[j].name matches Some(n) ==> #[trigger] names@[j]@ == n@),
            decreases entries.len() - k,
        {
            match &entries[k] {
                EntryInfo { name: Some(n), .. } => names.push(n.clone()),
                _ => names.push(String::new()),
            }
            k = k + 1;
        }
        match regex_find_each(query, &names) {
            Ok(v) => v,
            Err(_) => {
                return Err(QueryError::InvalidRegex);
            },
        }
    } else {
        Vec::new()
    };
    proof {
        if regex {
            assert forall|j: int| 0 <= j < entries.len() implies (entries@[j].name matches Some(n)
                ==> #[trigger] found@[j] == regex_finds(query@, n@)) by {
                if entries@[j].name is Some {
                    assert(names@[j]@ == entries@[j].name->0@);
                }
            }
        }
    }
    let lower_query = if ignore_case && !regex {
        to_lowercase(query)
    } else {
        String::new()
    };
    let ghost keep = |i: int|
        entry_selected(entries@[i], mode_of(regex, ignore_case), query@, opt_view(*containing));
    let ghost folded = |i: int| entry_selected_folded(entries@[i], query@, opt_view(*containing));
    let ghost ascii_case = !regex && ignore_case && is_ascii_text(query@) && names_ascii(entries@);
    let mut r: Vec<usize> = Vec::new();
    let mut i: usize = 0;
    while i < entries.len()
        invariant
            i <= entries.len(),
            mode == mode_of(regex, ignore_case),
            regex ==> found@.len() == entries.len() && forall|j: int|
                0 <= j < entries.len() ==> (entries@[j].name matches Some(n) ==> #[trigger] found@[j]
                    == regex_finds(query@, n@)),
            mode == QueryMode::IgnoreCase ==> lower_query@ == lowercase(query@),
            !regex && ignore_case && is_ascii_text(query@) ==> lower_query@ == ascii_fold(query@),
            keep == (|i: int|
                entry_selected(entries@[i], mode_of(regex, ignore_case), query@, opt_view(*containing))),
            folded == (|i: int| entry_selected_folded(entries@[i], query@, opt_view(*containing))),
            ascii_case == (!regex && ignore_case && is_ascii_text(query@) && names_ascii(entries@)),
            ascii_case ==> forall|j: int| 0 <= j < i ==> #[trigger] keep(j) == folded(j),
            r@ == select(i as nat, keep),
        decreases entries.len() - i,
    {
        let e = &entries[i];
        let kept = match &e.name {
            Some(n) => {
                let m = if regex {
                    found[i]
                } else {
                    matches_name(mode, query, &lower_query, n.as_str())
                };
                m && passes_filter(e, containing)
            },
            None => false,
        };
        proof {
            if ascii_case {
                if e.name is Some {
                    assert(is_ascii_text(e.name->0@));
                }
            }
        }
        if kept {
            r.push(i);
        }
        assert(select((i + 1) as nat, keep) =~= r@);
        i = i + 1;
    }
    proof {
        if ascii_case {
            lemma_select_ext(entries.len() as nat, keep, folded);
        }
    }
    Ok(r)
}

proof fn lemma_select_subset(n: nat, k1: spec_fn(int) -> bool, k2: spec_fn(int) -> bool)
    requires
        n <= usize::MAX,
        forall|i: int| 0 <= i < n && #[trigger] k1(i) ==> k2(i),
    ensures
        forall|k: int|
            0 <= k < select(n, k1).len() ==> select(n, k2).contains(#[trigger] select(n, k1)[k]),
{
    lemma_select(n, k1);
    lemma_select(n, k2);
    assert forall|k: int| 0 <= k < select(n, k1).len() implies select(n, k2).contains(
        #[trigger] select(n, k1)[k],
    ) by {
        let i = select(n, k1)[k] as int;
        assert(k1(i));
        assert(k2(i));
        assert(select(n, k2).contains(i as usize));
    }
}

proof fn lemma_fold_keeps_occurrence(name: Seq<char>, q: Seq<char>)
    requires
        contains_seq(name, q),
    ensures
        contains_seq(ascii_fold(name), ascii_fold(q)),
{
    let i = choose|i: int| occurs_at(name, q, i);
    assert(ascii_fold(name).subrange(i, i + q.len()) =~= ascii_fold(q)) by {
        assert forall|j: int| 0 <= j < q.len() implies ascii_fold(name).subrange(i, i + q.len())[j]
            == ascii_fold(q)[j] by {
            assert(name.subrange(i, i + q.len())[j] == q[j]);
        }
    }
    assert(occurs_at(ascii_fold(name), ascii_fold(q), i));
}

/// The entries that a case-sensitive substring query keeps.
pub open spec fn sensitive_selection(entries: Seq<EntryInfo>, query: Seq<char>, containing: Option<Seq<char>>) -> Seq<usize> {
    select(entries.len(), |i: int| entry_selected(entries[i], QueryMode::Substring, query, containing))
}

/// The entries that a case-blind query keeps when names and query are ASCII.
pub open spec fn folded_selection(entries: Seq<EntryInfo>, query: Seq<char>, containing: Option<Seq<char>>) -> Seq<usize> {
    select(entries.len(), |i: int| entry_selected_folded(entries[i], query, containing))
}

/// The entries with a valid name that pass the content filter.
pub open spec fn named_selection(entries: Seq<EntryInfo>, containing: Option<Seq<char>>) -> Seq<usize> {
    select(entries.len(), |i: int| entries[i].name is Some && contents_ok(entries[i], containing))
}

/// A case-blind query keeps every entry that the case-sensitive query keeps
/// (in the same directory order, both lists being increasing), and with the
/// empty query both keep exactly the entries with a valid name that pass
/// the content filter. On ASCII names and queries `execute_query` in
/// case-blind mode returns the folded selection.
pub proof fn lemma_ignore_case_keeps_matches(
    entries: Seq<EntryInfo>,
    query: Seq<char>,
    containing: Option<Seq<char>>,
)
    requires
        entries.len() <= usize::MAX,
    ensures
        forall|k: int|
            0 <= k < sensitive_selection(entries, query, containing).len() ==> folded_selection(
                entries,
                query,
                containing,
            ).contains(#[trigger] sensitive_selection(entries, query, containing)[k]),
        query.len() == 0 ==> sensitive_selection(entries, query, containing) == named_selection(
            entries,
            containing,
        ),
        query.len() == 0 ==> folded_selection(entries, query, containing) == named_selection(
            entries,
            containing,
        ),
{
    let k1 = |i: int| entry_selected(entries[i], QueryMode::Substring, query, containing);
    let k2 = |i: int| entry_selected_folded(entries[i], query, containing);
    let k0 = |i: int| entries[i].name is Some && contents_ok(entries[i], containing);
    assert forall|i: int| 0 <= i < entries.len() && #[trigger] k1(i) implies k2(i) by {
        lemma_fold_keeps_occurrence(entries[i].name->0@, query);
    }
    lemma_select_subset(entries.len(), k1, k2);
    if query.len() == 0 {
        assert forall|i: int| 0 <= i < entries.len() implies #[trigger] k1(i) == k0(i) by {
            if entries[i].name is Some {
                let n = entries[i].name->0@;
                assert(n.subrange(0, 0) =~= query);
                assert(occurs_at(n, query, 0));
            }
        }
        assert forall|i: int| 0 <= i < entries.len() implies #[trigger] k2(i) == k0(i) by {
            if entries[i].name is Some {
                let n = entries[i].name->0@;
                assert(ascii_fold(query) =~= Seq::<char>::empty());
                assert(ascii_fold(n).subrange(0, 0) =~= ascii_fold(query));
                assert(occurs_at(ascii_fold(n), ascii_fold(query), 0));
            }
        }
        lemma_select_ext(entries.len(), k1, k0);
        lemma_select_ext(entries.len(), k2, k0);
    }
}

/// What each mode compares: a plain query matches the names that hold it,
/// a case-blind query the names whose lowercase form holds its lowercase
/// form, and a regex the names it matches somewhere.
pub proof fn lemma_modes_compare(q: Seq<char>, n: Seq<char>)
    ensures
        name_matches(QueryMode::Substring, q, n) == (exists|i: int|
            0 <= i && i + q.len() <= n.len() && #[trigger] n.subrange(i, i + q.len()) == q),
        name_matches(QueryMode::IgnoreCase, q, n) == contains_seq(lowercase(n), lowercase(q)),
        name_matches(QueryMode::Regex, q, n) == regex_finds(q, n),
        mode_of(false, false) == QueryMode::Substring,
        mode_of(false, true) == QueryMode::IgnoreCase,
        mode_of(true, false) == QueryMode::Regex,
        mode_of(true, true) == QueryMode::Regex,
{
    if name_matches(QueryMode::Substring, q, n) {
        let i = choose|i: int| occurs_at(n, q, i);
        assert(n.subrange(i, i + q.len()) == q);
    }
    if exists|i: int| 0 <= i && i + q.len() <= n.len() && #[trigger] n.subrange(i, i + q.len()) == q {
        let i = choose|i: int| 0 <= i && i + q.len() <= n.len() && #[trigger] n.subrange(i, i + q.len()) == q;
        assert(occurs_at(n, q, i));
    }
}

/// A plain query keeps exactly the entries with a valid name that holds the
/// query and, under a content filter, with readable contents that hold the
/// filter text; each kept entry once, in directory order.
pub proof fn lemma_substring_selection(entries: Seq<EntryInfo>, q: Seq<char>, c: Option<Seq<char>>)
    requires
        entries.len() <= usize::MAX,
    ensures
        forall|i: int|
            0 <= i < entries.len() ==> (sensitive_selection(entries, q, c).contains(i as usize) <==> (
            (#[trigger] entries[i]).name matches Some(n) && contains_seq(n@, q) && (c matches Some(
                v,
            ) ==> (entries[i].contents matches Some(x) && contains_seq(x@, v))))),
{
    let keep = |j: int| entry_selected(entries[j], QueryMode::Substring, q, c);
    lemma_select(entries.len(), keep);
    let sel = select(entries.len(), keep);
    assert forall|i: int| 0 <= i < entries.len() implies (sel.contains(i as usize) <==> (
    (#[trigger] entries[i]).name matches Some(n) && contains_seq(n@, q) && (c matches Some(v) ==> (
    entries[i].contents matches Some(x) && contains_seq(x@, v))))) by {
        if sel.contains(i as usize) {
            let k = choose|k: int| 0 <= k < sel.len() && sel[k] == i as usize;
            assert(keep(sel[k] as int));
        }
        if keep(i) {
            assert(sel.contains(i as usize));
        }
    }
}

/// Several queries give their selections one after the other: for one
/// query, its own selection; for two lists of queries in a row, the result of
/// the first list followed by that of the second.
pub proof fn lemma_queries_concatenate(
    entries: Seq<EntryInfo>,
    qs1: Seq<String>,
    qs2: Seq<String>,
    mode: QueryMode,
    containing: Option<Seq<char>>,
)
    ensures
        select_all_queries(entries, qs1 + qs2, mode, containing) == select_all_queries(
            entries,
            qs1,
            mode,
            containing,
        ) + select_all_queries(entries, qs2, mode, containing),
        qs1.len() == 1 ==> select_all_queries(entries, qs1, mode, containing) == select(
            entries.len(),
            |i: int| entry_selected(entries[i], mode, qs1[0]@, containing),
        ),
    decreases qs2.len(),
{
    if qs1.len() == 1 {
        assert(qs1.drop_last() =~= Seq::<String>::empty());
        assert(qs1.last() == qs1[0]);
        assert(select_all_queries(entries, qs1.drop_last(), mode, containing) == Seq::<usize>::empty());
        assert(select_all_queries(entries, qs1, mode, containing) =~= select(
            entries.len(),
            |i: int| entry_selected(entries[i], mode, qs1[0]@, containing),
        ));
    }
    if qs2.len() == 0 {
        assert(qs1 + qs2 =~= qs1);
        assert(select_all_queries(entries, qs1, mode, containing) + Seq::<usize>::empty()
            =~= select_all_queries(entries, qs1, mode, containing));
    } else {
        lemma_queries_concatenate(entries, qs1, qs2.drop_last(), mode, containing);
        assert((qs1 + qs2).drop_last() =~= qs1 + qs2.drop_last());
        assert((qs1 + qs2).last() == qs2.last());
        let q = qs2.last()@;
        let sq = select(entries.len(), |i: int| entry_selected(entries[i], mode, q, containing));
        assert(select_all_queries(entries, qs1 + qs2, mode, containing) =~= select_all_queries(
            entries,
            qs1,
            mode,
            containing,
        ) + select_all_queries(entries, qs2.drop_last(), mode, containing) + sq);
    }
}

/// A list of queries holds an invalid regex exactly when one of its parts
/// does, and a single query is invalid exactly when the regex crate refuses
/// it.
pub proof fn lemma_query_failure(qs1: Seq<String>, qs2: Seq<String>, q: String)
    ensures
        some_query_fails(qs1 + qs2) == (some_query_fails(qs1) || some_query_fails(qs2)),
        some_query_fails(seq![q]) == !regex_compiles(q@),
        !some_query_fails(Seq::<String>::empty()),
{
    let all = qs1 + qs2;
    if some_query_fails(all) {
        let i = choose|i: int| 0 <= i < all.len() && !regex_compiles(all[i]@);
        if i < qs1.len() {
            assert(all[i] == qs1[i]);
        } else {
            assert(all[i] == qs2[i - qs1.len()]);
        }
    }
    if some_query_fails(qs1) {
        let i = choose|i: int| 0 <= i < qs1.len() && !regex_compiles(qs1[i]@);
        assert(all[i] == qs1[i]);
    }
    if some_query_fails(qs2) {
        let i = choose|i: int| 0 <= i < qs2.len() && !regex_compiles(qs2[i]@);
        assert(all[qs1.len() + i] == qs2[i]);
    }
    if !regex_compiles(q@) {
        assert(seq![q][0] == q);
    }
}

/// Whether every query can be used: always, unless the queries are regular
/// expressions and one of them is invalid.
pub fn queries_valid(inputs: &Option<Vec<String>>, regex: bool) -> (r: bool)
    ensures
        r == !(regex && (inputs matches Some(qs) && some_query_fails(qs@))),
{
    if !regex {
        return true;
    }
    match inputs {
        None => true,
        Some(qs) => {
            let none: Vec<String> = Vec::new();
            let mut k: usize = 0;
            while k < qs.len()
                invariant
                    regex,
                    *inputs == Some(*qs),
                    k <= qs.len(),
                    forall|j: int| 0 <= j < k ==> regex_compiles(qs@[j]@),
                decreases qs.len() - k,
            {
                match regex_find_each(qs[k].as_str(), &none) {
                    Ok(_) => {},
                    Err(_) => {
                        assert(!regex_compiles(qs@[k as int]@));
                        return false;
                    },
                }
                k = k + 1;
            }
            true
        },
    }
}

/// Some query of the list is no valid regular expression.
pub open spec fn some_query_fails(queries: Seq<String>) -> bool {
    exists|i: int| 0 <= i < queries.len() && !regex_compiles(queries[i]@)
}

/// The entries of a folder to compile: with queries, the entries kept by
/// each query in turn (an entry kept by two queries comes twice); without,
/// every entry that passes the content filter. An error when the queries are
/// regular expressions and one of them is invalid.
pub fn select_files(
    entries: &Vec<EntryInfo>,
    inputs: &Option<Vec<String>>,
    regex: bool,
    ignore_case: bool,
    containing: &Option<String>,
) -> (r: Result<Vec<usize>, QueryError>)
    ensures
        inputs is None ==> (r matches Ok(v) && v@ == select(
            entries.len() as nat,
            |i: int| contents_ok(entries@[i], opt_view(*containing)),
        )),
        inputs matches Some(qs) ==> {
            &&& r is Err <==> (regex && some_query_fails(qs@))
            &&& r matches Ok(v) ==> v@ == select_all_queries(
                entries@,
                qs@,
                mode_of(regex, ignore_case),
                opt_view(*containing),
            )
        },
{
    match inputs {
        None => Ok(query_all_files(entries, containing)),
        Some(qs) => {
            let mut r: Vec<usize> = Vec::new();
            let mut k: usize = 0;
            assert(qs@.take(0) =~= Seq::<String>::empty());
            while k < qs.len()
                invariant
                    *inputs == Some(*qs),
                    k <= qs.len(),
                    regex ==> forall|j: int| 0 <= j < k ==> regex_compiles(qs@[j]@),
                    r@ == select_all_queries(
                        entries@,
                        qs@.take(k as int),
                        mode_of(regex, ignore_case),
                        opt_view(*containing),
                    ),
                decreases qs.len() - k,
            {
                match execute_query(entries, qs[k].as_str(), regex, ignore_case, containing) {
                    Ok(mut found) => {
                        assert(qs@.take(k + 1).drop_last() =~= qs@.take(k as int));
                        assert(qs@.take(k + 1).last() == qs@[k as int]);
                        r.append(&mut found);
                    },
                    Err(e) => {
                        return Err(e);
                    },
                }
                k = k + 1;
            }
            assert(qs@.take(qs.len() as int) =~= qs@);
            Ok(r)
        },
    }
}

} // verus!
