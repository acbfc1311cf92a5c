use crate::named_path::{all_wf, NamedPath};
use crate::prefix::{has_prefix, starts_with};
use std::path::PathBuf;
use vstd::prelude::*;

verus! {

/// The path with the same parent directory and `name` as its final component.
pub uninterp spec fn path_with_file_name(p: PathBuf, name: Seq<char>) -> PathBuf;

/// Relies on `Path::with_file_name`: the same parent directory with `name` as
/// the final component.
#[verifier::external_body]
fn replace_file_name(pathbuf: &PathBuf, name: &str) -> (r: PathBuf)
    ensures
        r == path_with_file_name(*pathbuf, name@),
{
    pathbuf.with_file_name(name)
}

/// The text that takes the prefix's place: nothing where no replacement is given.
pub open spec fn replacement_of(replace: Option<String>) -> Seq<char> {
    match replace {
        Some(r) => r@,
        None => Seq::empty(),
    }
}

/// `name` with its first occurrence of `prefix` replaced by `replacement`,
/// for a name that begins with `prefix` (where that first occurrence stands).
pub open spec fn renamed(name: Seq<char>, prefix: Seq<char>, replacement: Seq<char>) -> Seq<char> {
    replacement + name.subrange(prefix.len() as int, name.len() as int)
}

/// Every name begins with `prefix` and keeps a non-empty name once renamed.
pub open spec fn plannable(paths: Seq<NamedPath>, prefix: Seq<char>, replacement: Seq<char>) -> bool {
    forall|i: int|
        0 <= i < paths.len() ==> has_prefix((#[trigger] paths[i]).name_seq(), prefix)
            && renamed(paths[i].name_seq(), prefix, replacement).len() > 0
}

/// Builds, for each candidate in order, the named path it is renamed to: the
/// first occurrence of `prefix` in its name is replaced by the replacement, and
/// the parent directory is kept.
pub fn get_new_named_paths(
    named_paths: &Vec<NamedPath>,
    replace: &Option<String>,
    prefix: &str,
) -> (r: Vec<NamedPath>)
    requires
        plannable(named_paths@, prefix@, replacement_of(*replace)),
    ensures
        r@.len() == named_paths@.len(),
        all_wf(r@),
        forall|i: int|
            0 <= i < r@.len() ==> (#[trigger] r@[i]).name_seq() == renamed(
                named_paths@[i].name_seq(),
                prefix@,
                replacement_of(*replace),
            ) && r@[i].path() == path_with_file_name(named_paths@[i].path(), r@[i].name_seq()),
{
    let replace_str: &str = match replace {
        Some(r) => r.as_str(),
        None => "",
    };
    proof {
        reveal_strlit("");
    }
    assert(replace_str@ == replacement_of(*replace));
    let prefix_len = prefix.unicode_len();
    let mut new_paths: Vec<NamedPath> = Vec::new();
    let mut i: usize = 0;
    while i < named_paths.len()
        invariant
            plannable(named_paths@, prefix@, replace_str@),
            replace_str@ == replacement_of(*replace),
            prefix_len == prefix@.len(),
            i <= named_paths@.len(),
            new_paths@.len() == i,
            all_wf(new_paths@),
            forall|k: int|
                0 <= k < i ==> (#[trigger] new_paths@[k]).name_seq() == renamed(
                    named_paths@[k].name_seq(),
                    prefix@,
                    replace_str@,
                ) && new_paths@[k].path() == path_with_file_name(
                    named_paths@[k].path(),
                    new_paths@[k].name_seq(),
                ),
        decreases named_paths@.len() - i,
    {
        let named_path = &named_paths[i];
        assert(has_prefix(named_paths@[i as int].name_seq(), prefix@));
        let name = named_path.name();
        let name_len = name.unicode_len();
        let mut new_name = String::from_str(replace_str);
        new_name.append(name.substring_char(prefix_len, name_len));
        assert(new_name@ =~= renamed(name@, prefix@, replace_str@));
        let new_path = replace_file_name(named_path.pathbuf(), new_name.as_str());
        if let Some(np) = NamedPath::from_parts(new_path, new_name) {
            new_paths.push(np);
        }
        i = i + 1;
    }
    new_paths
}

/// Plans the renames where every candidate allows it; `None` where some name
/// does not begin with `prefix`, or would be left empty.
pub fn plan_renames(
    named_paths: &Vec<NamedPath>,
    replace: &Option<String>,
    prefix: &str,
) -> (r: Option<Vec<NamedPath>>)
    ensures
        r is Some <==> plannable(named_paths@, prefix@, replacement_of(*replace)),
        r matches Some(v) ==> (v@.len() == named_paths@.len() && all_wf(v@) && forall|i: int|
            0 <= i < v@.len() ==> (#[trigger] v@[i]).name_seq() == renamed(
                named_paths@[i].name_seq(),
                prefix@,
                replacement_of(*replace),
            ) && v@[i].path() == path_with_file_name(named_paths@[i].path(), v@[i].name_seq())),
{
    let replace_len: usize = match replace {
        Some(r) => r.as_str().unicode_len(),
        None => 0,
    };
    let prefix_len = prefix.unicode_len();
    let mut i: usize = 0;
    while i < named_paths.len()
        invariant
            replace_len == replacement_of(*replace).len(),
            prefix_len == prefix@.len(),
            i <= named_paths@.len(),
            forall|k: int|
                0 <= k < i ==> has_prefix((#[trigger] named_paths@[k]).name_seq(), prefix@)
                    && renamed(named_paths@[k].name_seq(), prefix@, replacement_of(*replace)).len()
                    > 0,
        decreases named_paths@.len() - i,
    {
        let name = named_paths[i].name();
        if !starts_with(name, prefix) {
            return None;
        }
        if replace_len == 0 && name.unicode_len() == prefix_len {
            return None;
        }
        i = i + 1;
    }
    Some(get_new_named_paths(named_paths, replace, prefix))
}

/// Renaming is undone by renaming back with prefix and replacement swapped:
/// stripping `prefix` and then adding it again gives the original name.
pub proof fn lemma_rename_round_trip(name: Seq<char>, prefix: Seq<char>, replacement: Seq<char>)
    requires
        has_prefix(name, prefix),
    ensures
        has_prefix(renamed(name, prefix, replacement), replacement),
        renamed(renamed(name, prefix, replacement), replacement, prefix) == name,
{
    let once = renamed(name, prefix, replacement);
    assert(once.subrange(0, replacement.len() as int) =~= replacement);
    assert(renamed(once, replacement, prefix) =~= name);
}

} // verus!
