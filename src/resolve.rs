use crate::error::StripError;
use crate::named_path::{all_wf, has_file_name, lossy_file_name, NamedPath};
use std::path::PathBuf;
use vstd::prelude::*;

verus! {

/// The path that holds the given text.
pub uninterp spec fn path_of_text(text: Seq<char>) -> PathBuf;

/// Relies on `PathBuf::from`: a path holding the given text.
#[verifier::external_body]
fn path_from(text: &str) -> (r: PathBuf)
    ensures
        r == path_of_text(text@),
{
    PathBuf::from(text)
}

/// Whether two paths name the same path, as `PathBuf`'s `==` compares them.
pub uninterp spec fn same_path(a: PathBuf, b: PathBuf) -> bool;

/// Relies on `PartialEq for PathBuf`: paths are compared by their components.
#[verifier::external_body]
fn paths_equal(a: &PathBuf, b: &PathBuf) -> (r: bool)
    ensures
        r == same_path(*a, *b),
{
    a == b
}

/// The directory listed where no source is given.
pub open spec fn default_directory() -> PathBuf {
    path_of_text(seq!['.', '/'])
}

/// Where the candidates come from.
pub enum Source {
    /// An explicit list of files.
    Files(Vec<PathBuf>),
    /// The immediate entries of a directory.
    Directory(PathBuf),
}

/// Picks the candidate source: an explicit file list and a source directory
/// exclude each other; with neither, the current directory is listed.
pub fn select_source(files: Option<Vec<PathBuf>>, directory: Option<PathBuf>) -> (r: Result<
    Source,
    StripError,
>)
    ensures
        files is Some && directory is Some <==> r == Err::<Source, StripError>(
            StripError::ConflictingSources,
        ),
        files matches Some(f) ==> (directory is None ==> (r matches Ok(Source::Files(g)) && g@
            == f@)),
        directory matches Some(d) ==> (files is None ==> r == Ok::<Source, StripError>(
            Source::Directory(d),
        )),
        files is None && directory is None ==> r == Ok::<Source, StripError>(
            Source::Directory(default_directory()),
        ),
{
    match (files, directory) {
        (Some(_), Some(_)) => Err(StripError::ConflictingSources),
        (Some(f), None) => Ok(Source::Files(f)),
        (None, Some(d)) => Ok(Source::Directory(d)),
        (None, None) => {
            let text = "./";
            proof {
                reveal_strlit("./");
            }
            assert(text@ =~= seq!['.', '/']);
            Ok(Source::Directory(path_from(text)))
        },
    }
}

/// What probing one candidate found.
pub enum Probe {
    /// An entry that exists and is not a directory, or an explicit path that exists.
    Found(PathBuf),
    /// A directory entry that is itself a directory.
    FoundDirectory(PathBuf),
    /// An explicit path that does not exist.
    Missing,
    /// The probe itself failed.
    Failed,
}

/// What became of one probed candidate.
#[derive(Debug, Clone, Copy, PartialEq, Eq, Structural)]
pub enum Outcome {
    /// It is a candidate.
    Kept,
    /// A directory, left out without a diagnostic.
    Excluded,
    /// Skipped: the path does not exist.
    Missing,
    /// Skipped: the probe failed.
    Failed,
    /// Skipped: the path has no final component to take a name from.
    NoFileName,
    /// Skipped: the same path was kept already.
    Duplicate,
}

/// The candidates found, and for each probe in order what became of it.
pub struct Resolution {
    pub named_paths: Vec<NamedPath>,
    pub outcomes: Vec<Outcome>,
}

/// The path a probe found, if it found one.
pub open spec fn probe_path(p: Probe) -> Option<PathBuf> {
    match p {
        Probe::Found(path) => Some(path),
        Probe::FoundDirectory(path) => Some(path),
        _ => None,
    }
}

/// The path was kept already.
pub open spec fn repeats(earlier: Seq<PathBuf>, p: PathBuf) -> bool {
    exists|k: int| 0 <= k < earlier.len() && same_path(earlier[k], p)
}

/// What becomes of a probe, given the paths kept before it: skips and
/// exclusions are settled by the probe; a found path is kept where it has a
/// name and was not kept already.
pub open spec fn expected_outcome(p: Probe, include_directories: bool, earlier: Seq<PathBuf>) -> Outcome {
    match p {
        Probe::Missing => Outcome::Missing,
        Probe::Failed => Outcome::Failed,
        Probe::FoundDirectory(_) if !include_directories => Outcome::Excluded,
        Probe::Found(path) | Probe::FoundDirectory(path) => if !has_file_name(path) {
            Outcome::NoFileName
        } else if repeats(earlier, path) {
            Outcome::Duplicate
        } else {
            Outcome::Kept
        },
    }
}

/// The paths of the probes that were kept, in order.
pub open spec fn kept_paths(probes: Seq<Probe>, outcomes: Seq<Outcome>) -> Seq<PathBuf>
    decreases probes.len(),
{
    if probes.len() == 0 || outcomes.len() == 0 {
        Seq::empty()
    } else {
        let rest = kept_paths(probes.drop_last(), outcomes.drop_last());
        if outcomes.last() == Outcome::Kept && probe_path(probes.last()) is Some {
            rest.push(probe_path(probes.last())->Some_0)
        } else {
            rest
        }
    }
}

/// Every kept path is the path of one of the probes.
pub proof fn lemma_kept_paths_are_probed(probes: Seq<Probe>, outcomes: Seq<Outcome>)
    ensures
        forall|j: int|
            0 <= j < kept_paths(probes, outcomes).len() ==> exists|i: int|
                0 <= i < probes.len() && probe_path(probes[i]) == Some(
                    #[trigger] kept_paths(probes, outcomes)[j],
                ),
    decreases probes.len(),
{
    if probes.len() > 0 && outcomes.len() > 0 {
        let rest = probes.drop_last();
        lemma_kept_paths_are_probed(rest, outcomes.drop_last());
        let kept = kept_paths(probes, outcomes);
        let before = kept_paths(rest, outcomes.drop_last());
        assert forall|j: int| 0 <= j < kept.len() implies exists|i: int|
            0 <= i < probes.len() && probe_path(probes[i]) == Some(#[trigger] kept[j]) by {
            if j < before.len() {
                assert(kept[j] == before[j]);
                let i = choose|i: int| 0 <= i < rest.len() && probe_path(rest[i]) == Some(before[j]);
                assert(probes[i] == rest[i]);
            } else {
                assert(probe_path(probes[probes.len() - 1]) == Some(kept[j]));
            }
        }
    }
}

/// Turns probed candidates into named paths. Missing paths, failed probes,
/// paths without a final component and paths kept already are skipped;
/// directories are left out unless `include_directories` is set. No single
/// item stops the others. Each kept name is its path's final component.
pub fn resolve_candidates(probes: Vec<Probe>, include_directories: bool) -> (r: Resolution)
    ensures
        r.outcomes@.len() == probes@.len(),
        forall|i: int|
            0 <= i < probes@.len() ==> #[trigger] r.outcomes@[i] == expected_outcome(
                probes@[i],
                include_directories,
                kept_paths(probes@.take(i), r.outcomes@.take(i)),
            ),
        r.named_paths@.map_values(|n: NamedPath| n.path()) == kept_paths(probes@, r.outcomes@),
        all_wf(r.named_paths@),
        forall|j: int|
            0 <= j < r.named_paths@.len() ==> lossy_file_name((#[trigger] r.named_paths@[j]).path())
                == Some(r.named_paths@[j].name_seq()),
        forall|i: int, j: int|
            0 <= i < j < r.named_paths@.len() ==> !same_path(
                (#[trigger] r.named_paths@[i]).path(),
                (#[trigger] r.named_paths@[j]).path(),
            ),
        forall|j: int|
            0 <= j < r.named_paths@.len() ==> exists|i: int|
                0 <= i < probes@.len() && probe_path(probes@[i]) == Some(
                    (#[trigger] r.named_paths@[j]).path(),
                ),
{
    let ghost all = probes@;
    let mut rest = probes;
    let mut named_paths: Vec<NamedPath> = Vec::new();
    let mut outcomes: Vec<Outcome> = Vec::new();
    let ghost mut taken: int = 0;
    while rest.len() > 0
        invariant
            0 <= taken <= all.len(),
            rest@ == all.subrange(taken, all.len() as int),
            outcomes@.len() == taken,
            forall|i: int|
                0 <= i < taken ==> #[trigger] outcomes@[i] == expected_outcome(
                    all[i],
                    include_directories,
                    kept_paths(all.take(i), outcomes@.take(i)),
                ),
            named_paths@.map_values(|n: NamedPath| n.path()) == kept_paths(
                all.take(taken),
                outcomes@,
            ),
            all_wf(named_paths@),
            forall|j: int|
                0 <= j < named_paths@.len() ==> lossy_file_name((#[trigger] named_paths@[j]).path())
                    == Some(named_paths@[j].name_seq()),
            forall|i: int, j: int|
                0 <= i < j < named_paths@.len() ==> !same_path(
                    (#[trigger] named_paths@[i]).path(),
                    (#[trigger] named_paths@[j]).path(),
                ),
        decreases rest@.len(),
    {
        let probe = rest.remove(0);
        let ghost before = named_paths@;
        let ghost outcomes_before = outcomes@;
        let ghost earlier = kept_paths(all.take(taken), outcomes@);
        assert(outcomes_before =~= outcomes_before.take(taken));
        assert(probe == all[taken]);
        let path = match probe {
            Probe::Found(p) => Some(p),
            Probe::FoundDirectory(p) => {
                if include_directories {
                    Some(p)
                } else {
                    outcomes.push(Outcome::Excluded);
                    None
                }
            },
            Probe::Missing => {
                outcomes.push(Outcome::Missing);
                None
            },
            Probe::Failed => {
                outcomes.push(Outcome::Failed);
                None
            },
        };
        if let Some(p) = path {
            let ghost found = p;
            match NamedPath::from_pathbuf(p) {
                Some(named) => {
                    let mut j: usize = 0;
                    let mut repeated = false;
                    while j < named_paths.len() && !repeated
                        invariant
                            named_paths@ == before,
                            named.path() == found,
                            before.map_values(|n: NamedPath| n.path()) == earlier,
                            j <= before.len(),
                            repeated ==> repeats(earlier, found),
                            !repeated ==> forall|k: int| 0 <= k < j ==> !same_path(#[trigger] earlier[k], found),
                        decreases before.len() - j + (if repeated { 0int } else { 1int }),
                    {
                        if paths_equal(named_paths[j].pathbuf(), named.pathbuf()) {
                            assert(earlier[j as int] == before[j as int].path());
                            repeated = true;
                        } else {
                            assert(earlier[j as int] == before[j as int].path());
                            j = j + 1;
                        }
                    }
                    if repeated {
                        outcomes.push(Outcome::Duplicate);
                    } else {
                        assert(!repeats(earlier, found));
                        named_paths.push(named);
                        outcomes.push(Outcome::Kept);
                        proof {
                            assert forall|i: int, k: int|
                                0 <= i < k < named_paths@.len() implies !same_path(
                                (#[trigger] named_paths@[i]).path(),
                                (#[trigger] named_paths@[k]).path(),
                            ) by {
                                if k == before.len() {
                                    assert(earlier[i] == before[i].path());
                                }
                            }
                        }
                    }
                },
                None => {
                    outcomes.push(Outcome::NoFileName);
                },
            }
        }
        proof {
            let seen = all.take(taken + 1);
            assert(seen.drop_last() =~= all.take(taken));
            assert(outcomes@.drop_last() =~= outcomes_before);
            assert(seen.last() == all[taken]);
            assert(all.subrange(taken + 1, all.len() as int) =~= rest@);
            assert(outcomes@.take(taken) =~= outcomes_before);
            assert forall|i: int| 0 <= i < taken implies outcomes@.take(i) =~= outcomes_before.take(i) by {}
            if outcomes@.last() == Outcome::Kept {
                assert(named_paths@.map_values(|n: NamedPath| n.path()) =~= before.map_values(
                    |n: NamedPath| n.path(),
                ).push(probe_path(all[taken])->Some_0));
            } else {
                assert(named_paths@ == before);
            }
            taken = taken + 1;
        }
    }
    assert(all.take(taken) =~= all);
    proof {
        lemma_kept_paths_are_probed(all, outcomes@);
        assert forall|j: int| 0 <= j < named_paths@.len() implies exists|i: int|
            0 <= i < all.len() && probe_path(all[i]) == Some((#[trigger] named_paths@[j]).path()) by {
            assert(kept_paths(all, outcomes@)[j] == named_paths@[j].path());
        }
    }
    Resolution { named_paths, outcomes }
}

impl Resolution {
    /// The candidates, or `NoFilesRemaining` where none is left.
    pub fn into_candidates(self) -> (r: Result<Vec<NamedPath>, StripError>)
        ensures
            self.named_paths@.len() == 0 <==> r == Err::<Vec<NamedPath>, StripError>(
                StripError::NoFilesRemaining,
            ),
            self.named_paths@.len() > 0 ==> r == Ok::<Vec<NamedPath>, StripError>(
                self.named_paths,
            ),
    {
        if self.named_paths.len() == 0 {
            Err(StripError::NoFilesRemaining)
        } else {
            Ok(self.named_paths)
        }
    }
}

} // verus!
