//! The command line of the compiler and the rules between its flags.

use vstd::prelude::*;

verus! {

/// The arguments of the notes compiler.
pub struct App {
    /// The queries are regular expressions.
    pub regex: bool,
    /// The queries ignore case.
    pub ignore_case: bool,
    /// Search the snippets folder.
    pub snippets: bool,
    /// Pull with git and compile what changed.
    pub pull: bool,
    /// Compile the local git changes.
    pub diff: bool,
    /// Search the latex folder.
    pub latex: bool,
    /// Search the typst folder.
    pub typst: bool,
    /// Search the pages folder.
    pub pages: bool,
    /// Search the courses folder.
    pub courses: bool,
    /// Search the universes folder.
    pub universes: bool,
    /// Keep only the files whose contents hold this text (the text is not
    /// a regular expression and its case matters).
    pub containing: Option<String>,
    /// The queries on file names.
    pub inputs: Option<Vec<String>>,
}

/// Two flags that cannot be given together.
#[derive(PartialEq, Eq, Structural, Clone, Copy, Debug)]
pub enum ArgConflict {
    RegexIgnoreCase,
    IgnoreCasePull,
    PullRegex,
    IgnoreCaseDiff,
    DiffRegex,
    PullDiff,
}

/// The source folders that a run searches.
#[derive(PartialEq, Eq, Structural, Clone, Copy, Debug)]
pub struct SearchTargets {
    pub latex: bool,
    pub typst: bool,
    pub snippets: bool,
    pub pages: bool,
    pub courses: bool,
    pub universes: bool,
}

/// The first conflict between the flags, checked in this order: regex and
/// ignore-case, ignore-case and pull, pull and regex, ignore-case and diff,
/// diff and regex, pull and diff.
pub open spec fn first_conflict(regex: bool, ignore_case: bool, pull: bool, diff: bool) -> Option<ArgConflict> {
    if regex && ignore_case {
        Some(ArgConflict::RegexIgnoreCase)
    } else if ignore_case && pull {
        Some(ArgConflict::IgnoreCasePull)
    } else if pull && regex {
        Some(ArgConflict::PullRegex)
    } else if ignore_case && diff {
        Some(ArgConflict::IgnoreCaseDiff)
    } else if diff && regex {
        Some(ArgConflict::DiffRegex)
    } else if pull && diff {
        Some(ArgConflict::PullDiff)
    } else {
        None
    }
}

/// How many of the four modes (regex, ignore-case, pull, diff) are set.
pub open spec fn modes_set(regex: bool, ignore_case: bool, pull: bool, diff: bool) -> nat {
    (if regex { 1nat } else { 0nat }) + (if ignore_case { 1nat } else { 0nat }) + (if pull {
        1nat
    } else {
        0nat
    }) + (if diff { 1nat } else { 0nat })
}

/// The two flags of a conflict are both set.
pub open spec fn conflict_holds(c: ArgConflict, regex: bool, ignore_case: bool, pull: bool, diff: bool) -> bool {
    match c {
        ArgConflict::RegexIgnoreCase => regex && ignore_case,
        ArgConflict::IgnoreCasePull => ignore_case && pull,
        ArgConflict::PullRegex => pull && regex,
        ArgConflict::IgnoreCaseDiff => ignore_case && diff,
        ArgConflict::DiffRegex => diff && regex,
        ArgConflict::PullDiff => pull && diff,
    }
}

/// The message for a conflict.
pub open spec fn conflict_message(c: ArgConflict) -> Seq<char> {
    match c {
        ArgConflict::RegexIgnoreCase => "Cannot use 'ignore_case' flag if 'regex' flag is set"@,
        ArgConflict::IgnoreCasePull => "Cannot use 'ignore_case' flag if 'pull' flag is set"@,
        ArgConflict::PullRegex => "Cannot use 'pull' flag if 'regex' flag is set"@,
        ArgConflict::IgnoreCaseDiff => "Cannot use 'ignore_case' flag if 'diff' flag is set"@,
        ArgConflict::DiffRegex => "Cannot use 'diff' flag if 'regex' flag is set"@,
        ArgConflict::PullDiff => "Cannot use 'pull' flag if 'diff' flag is set"@,
    }
}

impl ArgConflict {
    /// The message shown when the two flags are given together.
    pub fn message(&self) -> (m: &'static str)
        ensures
            m@ == conflict_message(*self),
    {
        match self {
            ArgConflict::RegexIgnoreCase => "Cannot use 'ignore_case' flag if 'regex' flag is set",
            ArgConflict::IgnoreCasePull => "Cannot use 'ignore_case' flag if 'pull' flag is set",
            ArgConflict::PullRegex => "Cannot use 'pull' flag if 'regex' flag is set",
            ArgConflict::IgnoreCaseDiff => "Cannot use 'ignore_case' flag if 'diff' flag is set",
            ArgConflict::DiffRegex => "Cannot use 'diff' flag if 'regex' flag is set",
            ArgConflict::PullDiff => "Cannot use 'pull' flag if 'diff' flag is set",
        }
    }
}

/// The folders searched: those whose flag is set, or all of them when no
/// folder flag is set.
pub open spec fn targets_of(latex: bool, typst: bool, snippets: bool, pages: bool, courses: bool, universes: bool) -> SearchTargets {
    let all = !(latex || typst || snippets || pages || courses || universes);
    SearchTargets {
        latex: latex || all,
        typst: typst || all,
        snippets: snippets || all,
        pages: pages || all,
        courses: courses || all,
        universes: universes || all,
    }
}

impl App {
    /// Checks that no two of regex, ignore-case, pull and diff are given
    /// together; the error names the first pair found.
    pub fn validate(&self) -> (r: Result<(), ArgConflict>)
        ensures
            r == (match first_conflict(self.regex, self.ignore_case, self.pull, self.diff) {
                Some(c) => Err(c),
                None => Ok(()),
            }),
    {
        if self.regex && self.ignore_case {
            Err(ArgConflict::RegexIgnoreCase)
        } else if self.ignore_case && self.pull {
            Err(ArgConflict::IgnoreCasePull)
        } else if self.pull && self.regex {
            Err(ArgConflict::PullRegex)
        } else if self.ignore_case && self.diff {
            Err(ArgConflict::IgnoreCaseDiff)
        } else if self.diff && self.regex {
            Err(ArgConflict::DiffRegex)
        } else if self.pull && self.diff {
            Err(ArgConflict::PullDiff)
        } else {
            Ok(())
        }
    }

    /// The files to compile come from git (a pull, or the local changes).
    pub fn uses_git(&self) -> (r: bool)
        ensures
            r == (self.pull || self.diff),
    {
        self.pull || self.diff
    }

    /// The source folders to search.
    pub fn search_targets(&self) -> (t: SearchTargets)
        ensures
            t == targets_of(self.latex, self.typst, self.snippets, self.pages, self.courses, self.universes),
    {
        let all = !(self.latex || self.typst || self.snippets || self.pages || self.courses
            || self.universes);
        SearchTargets {
            latex: self.latex || all,
            typst: self.typst || all,
            snippets: self.snippets || all,
            pages: self.pages || all,
            courses: self.courses || all,
            universes: self.universes || all,
        }
    }
}

/// The four modes are exclusive: the flags are accepted exactly when at most
/// one of regex, ignore-case, pull and diff is set, and a refusal names two
/// flags that are both set.
pub proof fn lemma_modes_exclusive(regex: bool, ignore_case: bool, pull: bool, diff: bool)
    ensures
        (first_conflict(regex, ignore_case, pull, diff) is None) <==> modes_set(
            regex,
            ignore_case,
            pull,
            diff,
        ) <= 1,
        first_conflict(regex, ignore_case, pull, diff) matches Some(c) ==> conflict_holds(
            c,
            regex,
            ignore_case,
            pull,
            diff,
        ),
{
}

/// The conflict reported is the first pair, in the order regex/ignore-case,
/// ignore-case/pull, pull/regex, ignore-case/diff, diff/regex, pull/diff,
/// whose two flags are both set.
pub proof fn lemma_first_conflict_order(regex: bool, ignore_case: bool, pull: bool, diff: bool)
    ensures
        regex && ignore_case ==> first_conflict(regex, ignore_case, pull, diff) == Some(
            ArgConflict::RegexIgnoreCase,
        ),
        !(regex && ignore_case) && ignore_case && pull ==> first_conflict(regex, ignore_case, pull, diff)
            == Some(ArgConflict::IgnoreCasePull),
        !(regex && ignore_case) && !(ignore_case && pull) && pull && regex ==> first_conflict(
            regex,
            ignore_case,
            pull,
            diff,
        ) == Some(ArgConflict::PullRegex),
        !regex && !pull && ignore_case && diff ==> first_conflict(regex, ignore_case, pull, diff)
            == Some(ArgConflict::IgnoreCaseDiff),
        !ignore_case && !pull && diff && regex ==> first_conflict(regex, ignore_case, pull, diff)
            == Some(ArgConflict::DiffRegex),
        !regex && !ignore_case && pull && diff ==> first_conflict(regex, ignore_case, pull, diff)
            == Some(ArgConflict::PullDiff),
{
}

/// With no folder flag every folder is searched; otherwise exactly the
/// folders whose flag is set.
pub proof fn lemma_targets(latex: bool, typst: bool, snippets: bool, pages: bool, courses: bool, universes: bool)
    ensures
        !(latex || typst || snippets || pages || courses || universes) ==> targets_of(
            latex,
            typst,
            snippets,
            pages,
            courses,
            universes,
        ) == (SearchTargets {
            latex: true,
            typst: true,
            snippets: true,
            pages: true,
            courses: true,
            universes: true,
        }),
        (latex || typst || snippets || pages || courses || universes) ==> targets_of(
            latex,
            typst,
            snippets,
            pages,
            courses,
            universes,
        ) == (SearchTargets { latex, typst, snippets, pages, courses, universes }),
{
}

} // verus!
