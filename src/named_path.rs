use std::path::PathBuf;
use vstd::prelude::*;

verus! {

#[verifier::external_type_specification]
#[verifier::external_body]
pub struct ExPathBuf(PathBuf);

/// The final component of a path as text, lossily decoded; `None` where the
/// path has none.
pub uninterp spec fn lossy_file_name(p: PathBuf) -> Option<Seq<char>>;

/// Relies on `Path::file_name`, whose final component is turned into text by
/// `OsStr::to_string_lossy`; `None` where the path has no final component.
#[verifier::external_body]
fn file_name_lossy(pathbuf: &PathBuf) -> (r: Option<String>)
    ensures
        r is Some <==> lossy_file_name(*pathbuf) is Some,
        r matches Some(s) ==> lossy_file_name(*pathbuf) == Some(s@),
{
    pathbuf.file_name().map(|n| n.to_string_lossy().into_owned())
}

/// The path has a final component whose text is not empty.
pub open spec fn has_file_name(p: PathBuf) -> bool {
    lossy_file_name(p) matches Some(t) && t.len() > 0
}

/// A path together with the text of its final component, which is never empty.
#[derive(Debug)]
pub struct NamedPath {
    pathbuf: PathBuf,
    name: String,
}

impl NamedPath {
    /// The path this value was built from.
    pub closed spec fn path(&self) -> PathBuf {
        self.pathbuf
    }

    /// The cached base name.
    pub closed spec fn name_seq(&self) -> Seq<char> {
        self.name@
    }

    pub open spec fn wf(&self) -> bool {
        self.name_seq().len() > 0
    }

    /// Pairs a path with a base name; refuses an empty name.
    pub fn from_parts(pathbuf: PathBuf, name: String) -> (r: Option<Self>)
        ensures
            r.is_some() <==> name@.len() > 0,
            r matches Some(n) ==> n.wf() && n.path() == pathbuf && n.name_seq() == name@,
    {
        if name.unicode_len() == 0 {
            None
        } else {
            Some(NamedPath { pathbuf, name })
        }
    }

    /// Takes the final component of `pathbuf` as its name; `None` where the
    /// path has no non-empty final component.
    pub fn from_pathbuf(pathbuf: PathBuf) -> (r: Option<Self>)
        ensures
            r is Some <==> has_file_name(pathbuf),
            r matches Some(n) ==> (n.wf() && n.path() == pathbuf && lossy_file_name(pathbuf) == Some(
                n.name_seq(),
            )),
    {
        match file_name_lossy(&pathbuf) {
            Some(name) => Self::from_parts(pathbuf, name),
            None => None,
        }
    }

    pub fn pathbuf(&self) -> (r: &PathBuf)
        ensures
            *r == self.path(),
    {
        &self.pathbuf
    }

    pub fn name(&self) -> (r: &str)
        ensures
            r@ == self.name_seq(),
    {
        self.name.as_str()
    }
}

/// The base names of a sequence of named paths, in order.
pub open spec fn names_of(paths: Seq<NamedPath>) -> Seq<Seq<char>> {
    paths.map_values(|n: NamedPath| n.name_seq())
}

/// Every member has a non-empty name.
pub open spec fn all_wf(paths: Seq<NamedPath>) -> bool {
    forall|i: int| 0 <= i < paths.len() ==> #[trigger] paths[i].wf()
}

} // verus!
