use crate::error::StripError;
use crate::named_path::{all_wf, names_of, NamedPath};
use vstd::prelude::*;

verus! {

/// `s` begins with `p`.
pub open spec fn has_prefix(s: Seq<char>, p: Seq<char>) -> bool {
    p.len() <= s.len() && s.subrange(0, p.len() as int) == p
}

/// Every name begins with `p`.
pub open spec fn is_common_prefix(names: Seq<Seq<char>>, p: Seq<char>) -> bool {
    forall|i: int| 0 <= i < names.len() ==> has_prefix(#[trigger] names[i], p)
}

/// `p` is a common prefix of `names` and no common prefix is longer.
pub open spec fn is_longest_common_prefix(names: Seq<Seq<char>>, p: Seq<char>) -> bool {
    &&& is_common_prefix(names, p)
    &&& forall|q: Seq<char>| #[trigger] is_common_prefix(names, q) ==> q.len() <= p.len()
}

/// The candidates whose name begins with `prefix`, in their original order.
pub open spec fn vetted(paths: Seq<NamedPath>, prefix: Seq<char>) -> Seq<NamedPath>
    decreases paths.len(),
{
    if paths.len() == 0 {
        Seq::empty()
    } else {
        let rest = vetted(paths.drop_last(), prefix);
        if has_prefix(paths.last().name_seq(), prefix) {
            rest.push(paths.last())
        } else {
            rest
        }
    }
}

/// Tells whether `s` begins with `p`, comparing characters exactly.
pub fn starts_with(s: &str, p: &str) -> (r: bool)
    ensures
        r == has_prefix(s@, p@),
{
    let n = p.unicode_len();
    let m = s.unicode_len();
    if n > m {
        return false;
    }
    let mut i: usize = 0;
    while i < n
        invariant
            n == p@.len(),
            m == s@.len(),
            n <= m,
            i <= n,
            forall|j: int| 0 <= j < i ==> s@[j] == p@[j],
        decreases n - i,
    {
        if s.get_char(i) != p.get_char(i) {
            assert(s@.subrange(0, n as int)[i as int] != p@[i as int]);
            return false;
        }
        i = i + 1;
    }
    assert(s@.subrange(0, n as int) =~= p@);
    true
}

/// Finds the longest prefix shared by every candidate name; `None` where that
/// prefix is empty.
pub fn try_find_prefix(named_paths: &[NamedPath]) -> (r: Result<Option<String>, StripError>)
    requires
        named_paths@.len() > 0,
    ensures
        r matches Ok(Some(p)) ==> (p@.len() > 0 && is_longest_common_prefix(
            names_of(named_paths@),
            p@,
        )),
        r matches Ok(None) ==> is_longest_common_prefix(names_of(named_paths@), Seq::empty()),
        r is Ok,
{
    let ghost names = names_of(named_paths@);
    let count = named_paths.len();
    let first = named_paths[0].name();
    let mut max_length = first.unicode_len();
    let ghost mut shortest: int = 0;
    let mut j: usize = 1;
    while j < count
        invariant
            names == names_of(named_paths@),
            count == named_paths@.len(),
            1 <= j <= count,
            0 <= shortest < count,
            max_length == names[shortest].len(),
            forall|k: int| 0 <= k < j ==> max_length <= #[trigger] names[k].len(),
        decreases count - j,
    {
        let len = named_paths[j].name().unicode_len();
        if len < max_length {
            max_length = len;
            proof {
                shortest = j as int;
            }
        }
        j = j + 1;
    }
    let mut index: usize = 0;
    let mut mismatch = false;
    let ghost mut witness: int = 0;
    while index < max_length && !mismatch
        invariant
            names == names_of(named_paths@),
            count == named_paths@.len(),
            first@ == names[0],
            0 <= shortest < count,
            max_length == names[shortest].len(),
            forall|k: int| 0 <= k < count ==> max_length <= #[trigger] names[k].len(),
            index <= max_length,
            forall|k: int, c: int|
                0 <= k < count && 0 <= c < index ==> #[trigger] names[k][c] == names[0][c],
            mismatch ==> 0 <= witness < count && index < max_length && names[witness][index as int]
                != names[0][index as int],
        decreases max_length - index + (if mismatch { 0int } else { 1int }),
    {
        let c = first.get_char(index);
        let mut k: usize = 0;
        while k < count && !mismatch
            invariant
                names == names_of(named_paths@),
                count == named_paths@.len(),
                first@ == names[0],
                index < max_length,
                forall|m: int| 0 <= m < count ==> max_length <= #[trigger] names[m].len(),
                c == names[0][index as int],
                k <= count,
                forall|m: int| 0 <= m < k ==> #[trigger] names[m][index as int] == c,
                mismatch ==> 0 <= witness < count && names[witness][index as int] != c,
            decreases count - k + (if mismatch { 0int } else { 1int }),
        {
            assert(names[k as int] == named_paths@[k as int].name_seq());
            if named_paths[k].name().get_char(index) != c {
                mismatch = true;
                proof {
                    witness = k as int;
                }
            } else {
                k = k + 1;
            }
        }
        if !mismatch {
            index = index + 1;
        }
    }
    let ghost lcp = names[0].subrange(0, index as int);
    assert forall|k: int| 0 <= k < count implies has_prefix(#[trigger] names[k], lcp) by {
        assert(names[k].subrange(0, index as int) =~= lcp);
    }
    assert forall|q: Seq<char>| #[trigger] is_common_prefix(names, q) implies q.len() <= index by {
        if q.len() > index {
            if mismatch {
                assert(has_prefix(names[witness], q));
                assert(has_prefix(names[0], q));
                assert(names[witness].subrange(0, q.len() as int)[index as int] == q[index as int]);
                assert(names[0].subrange(0, q.len() as int)[index as int] == q[index as int]);
            } else {
                assert(has_prefix(names[shortest], q));
            }
        }
    }
    if index == 0 {
        assert(lcp =~= Seq::<char>::empty());
        return Ok(None);
    }
    let prefix = String::from_str(first.substring_char(0, index));
    Ok(Some(prefix))
}

/// Keeps the candidates whose name begins with `prefix`; fails where none does.
pub fn vet_named_paths(prefix: &String, named_paths: Vec<NamedPath>) -> (r: Result<
    Vec<NamedPath>,
    StripError,
>)
    ensures
        vetted(named_paths@, prefix@).len() == 0 ==> r == Err::<Vec<NamedPath>, StripError>(
            StripError::NoFilesRemaining,
        ),
        vetted(named_paths@, prefix@).len() > 0 ==> (r matches Ok(v) && v@ == vetted(
            named_paths@,
            prefix@,
        )),
{
    let ghost all = named_paths@;
    let mut rest = named_paths;
    let mut kept: Vec<NamedPath> = Vec::new();
    let ghost mut taken: int = 0;
    while rest.len() > 0
        invariant
            0 <= taken <= all.len(),
            rest@ == all.subrange(taken, all.len() as int),
            kept@ == vetted(all.subrange(0, taken), prefix@),
        decreases rest@.len(),
    {
        let item = rest.remove(0);
        proof {
            assert(all.subrange(0, taken + 1).drop_last() =~= all.subrange(0, taken));
            assert(all.subrange(taken + 1, all.len() as int) =~= rest@);
        }
        if starts_with(item.name(), prefix.as_str()) {
            kept.push(item);
        }
        proof {
            taken = taken + 1;
        }
    }
    assert(all.subrange(0, taken) =~= all);
    if kept.len() == 0 {
        return Err(StripError::NoFilesRemaining);
    }
    Ok(kept)
}

/// Every member of `vetted(paths, prefix)` is a member of `paths` whose name
/// begins with `prefix`.
pub proof fn lemma_vetted_members(paths: Seq<NamedPath>, prefix: Seq<char>)
    ensures
        forall|i: int|
            0 <= i < vetted(paths, prefix).len() ==> has_prefix(
                (#[trigger] vetted(paths, prefix)[i]).name_seq(),
                prefix,
            ) && paths.contains(vetted(paths, prefix)[i]),
    decreases paths.len(),
{
    if paths.len() > 0 {
        lemma_vetted_members(paths.drop_last(), prefix);
        let rest = vetted(paths.drop_last(), prefix);
        assert forall|i: int| 0 <= i < vetted(paths, prefix).len() implies has_prefix(
            (#[trigger] vetted(paths, prefix)[i]).name_seq(),
            prefix,
        ) && paths.contains(vetted(paths, prefix)[i]) by {
            if i < rest.len() {
                assert(rest[i] == vetted(paths.drop_last(), prefix)[i]);
                assert(paths.drop_last().contains(rest[i]));
                let j = choose|j: int| 0 <= j < paths.drop_last().len() && paths.drop_last()[j] == rest[i];
                assert(paths[j] == rest[i]);
            } else {
                assert(paths[paths.len() - 1] == paths.last());
            }
        }
    }
}

/// The longest common prefix of a non-empty set of names is unique.
pub proof fn lemma_longest_common_prefix_unique(names: Seq<Seq<char>>, p: Seq<char>, q: Seq<char>)
    requires
        names.len() > 0,
        is_longest_common_prefix(names, p),
        is_longest_common_prefix(names, q),
    ensures
        p == q,
{
    assert(is_common_prefix(names, q));
    assert(is_common_prefix(names, p));
    assert(has_prefix(names[0], p));
    assert(has_prefix(names[0], q));
    assert(p =~= q);
}

/// Where every name is the same, the longest common prefix is that name.
pub proof fn lemma_identical_names_prefix(names: Seq<Seq<char>>)
    requires
        names.len() > 0,
        forall|i: int| 0 <= i < names.len() ==> #[trigger] names[i] == names[0],
    ensures
        is_longest_common_prefix(names, names[0]),
{
    assert forall|i: int| 0 <= i < names.len() implies has_prefix(#[trigger] names[i], names[0]) by {
        assert(names[i].subrange(0, names[0].len() as int) =~= names[0]);
    }
    assert forall|q: Seq<char>| #[trigger] is_common_prefix(names, q) implies q.len()
        <= names[0].len() by {
        assert(has_prefix(names[0], q));
    }
}

/// Settles the prefix of a run and the candidates it applies to: a given
/// prefix keeps the candidates that begin with it; without one, the longest
/// common prefix of all candidate names is used and must not be empty.
pub fn resolve_prefix(prefix: Option<String>, named_paths: Vec<NamedPath>) -> (r: Result<
    (String, Vec<NamedPath>),
    StripError,
>)
    requires
        named_paths@.len() > 0,
        all_wf(named_paths@),
    ensures
        prefix matches Some(p) ==> (vetted(named_paths@, p@).len() == 0 <==> r == Err::<
            (String, Vec<NamedPath>),
            StripError,
        >(StripError::NoFilesRemaining)),
        prefix matches Some(p) ==> (vetted(named_paths@, p@).len() > 0 ==> (r matches Ok(
            (q, v),
        ) && q@ == p@ && v@ == vetted(named_paths@, p@))),
        prefix is None ==> (is_longest_common_prefix(names_of(named_paths@), Seq::empty())
            <==> r == Err::<(String, Vec<NamedPath>), StripError>(StripError::PrefixNotFound)),
        prefix is None ==> (!is_longest_common_prefix(names_of(named_paths@), Seq::empty()) ==> (
        r matches Ok((q, v)) && q@.len() > 0 && is_longest_common_prefix(
            names_of(named_paths@),
            q@,
        ) && v@ == named_paths@)),
        r matches Ok((q, v)) ==> (v@.len() > 0 && all_wf(v@) && forall|i: int|
            0 <= i < v@.len() ==> has_prefix(#[trigger] v@[i].name_seq(), q@)),
{
    match prefix {
        Some(p) => {
            let ghost all = named_paths@;
            proof {
                lemma_vetted_members(all, p@);
            }
            match vet_named_paths(&p, named_paths) {
                Ok(vetted_paths) => {
                    assert forall|i: int| 0 <= i < vetted_paths@.len() implies #[trigger] vetted_paths@[i].wf() by {
                        assert(vetted_paths@[i] == vetted(all, p@)[i]);
                        assert(all.contains(vetted_paths@[i]));
                    }
                    Ok((p, vetted_paths))
                },
                Err(e) => Err(e),
            }
        },
        None => {
            let ghost names = names_of(named_paths@);
            match try_find_prefix(named_paths.as_slice()) {
                Ok(Some(p)) => {
                    proof {
                        if is_longest_common_prefix(names, Seq::empty()) {
                            lemma_longest_common_prefix_unique(names, p@, Seq::empty());
                        }
                        assert forall|i: int| 0 <= i < named_paths@.len() implies has_prefix(
                            #[trigger] named_paths@[i].name_seq(),
                            p@,
                        ) by {
                            assert(names[i] == named_paths@[i].name_seq());
                        }
                    }
                    Ok((p, named_paths))
                },
                _ => Err(StripError::PrefixNotFound),
            }
        },
    }
}

} // verus!
