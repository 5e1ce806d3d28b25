//! Naming rules for the items that are copied into the data folder.

use vstd::prelude::*;
use crate::text::{contains_seq, lemma_strip_suffix, replace_all, replace_str, str_eq};

verus! {

/// The id of a course or universe file: its file name with every `.json`
/// removed.
pub fn json_id(file_name: &str) -> (id: String)
    ensures
        id@ == replace_all(file_name@, ".json"@, ""@),
{
    replace_str(file_name, ".json", "")
}

/// The id of `<name>.json` is `<name>`, whenever `<name>` holds no `.json`.
pub proof fn lemma_json_id_strips_extension(name: Seq<char>)
    requires
        !contains_seq(name, ".json"@),
    ensures
        replace_all(name + ".json"@, ".json"@, ""@) == name,
{
    reveal_strlit(".json");
    reveal_strlit("");
    assert(""@ =~= Seq::<char>::empty());
    lemma_strip_suffix(name, ".json"@);
}

/// The entry is named `build.py`.
pub open spec fn is_build_script(name: Option<String>) -> bool {
    name matches Some(n) && n@ == "build.py"@
}

/// An entry is the build script exactly when its name is `build.py`, and a
/// name that differs from `build.py` in length or in some character is not.
pub proof fn lemma_build_script_name(name: Option<String>)
    ensures
        is_build_script(name) <==> (name matches Some(n) && n@ == "build.py"@),
        (name matches Some(n) && (n@.len() != 8 || exists|i: int|
            0 <= i < 8 && n@[i] != #[trigger] "build.py"@[i])) ==> !is_build_script(name),
{
    reveal_strlit("build.py");
    if let Some(n) = name {
        if n@.len() == 8 && exists|i: int| 0 <= i < 8 && n@[i] != #[trigger] "build.py"@[i] {
            let i = choose|i: int| 0 <= i < 8 && n@[i] != #[trigger] "build.py"@[i];
            assert(n@ != "build.py"@);
        }
    }
}

/// The first entry of a snippet folder named `build.py`, the script that
/// builds the snippet; `None` when there is none, and the folder is copied
/// as it is.
pub fn find_build_script(names: &Vec<Option<String>>) -> (r: Option<usize>)
    ensures
        r matches Some(i) ==> i < names.len() && is_build_script(names@[i as int]) && forall|j: int|
            0 <= j < i ==> !is_build_script(#[trigger] names@[j]),
        r is None ==> forall|j: int| 0 <= j < names.len() ==> !is_build_script(#[trigger] names@[j]),
        r matches Some(i) ==> (names@[i as int] matches Some(n) && n@ == "build.py"@),
        r is None ==> forall|j: int|
            0 <= j < names.len() ==> !(#[trigger] names@[j] matches Some(n) && n@ == "build.py"@),
{
    let mut i: usize = 0;
    while i < names.len()
        invariant
            i <= names.len(),
            forall|j: int| 0 <= j < i ==> !is_build_script(#[trigger] names@[j]),
        decreases names.len() - i,
    {
        match &names[i] {
            Some(n) => {
                if str_eq(n.as_str(), "build.py") {
                    return Some(i);
                }
            },
            None => {},
        }
        i = i + 1;
    }
    None
}

} // verus!
