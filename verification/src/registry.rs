//! The registry of indices: one directory per workspace under
//! `<data_dir>/indexes/`, named by the workspace's identifier.
//!
//! Reading the directories belongs to the caller. What is decided here is
//! which of them are orphans and which of them an identifier names.

use vstd::prelude::*;
use crate::symlink::option_view;
use crate::text::{contains, has_infix, same_text, to_chars};

verus! {

/// What is known of one index directory.
#[derive(Debug, Clone)]
pub struct IndexInfo {
    /// The directory's name: the identifier of the workspace.
    pub hash: String,
    /// The directory.
    pub path: String,
    /// The workspace root recorded in it, if any.
    pub workspace: Option<String>,
    /// The size of its files in bytes.
    pub size_bytes: u64,
}

/// An index is an orphan when it records no workspace, or one that does not
/// exist any more.
pub open spec fn is_orphan(workspace: Option<Seq<char>>, workspace_exists: bool) -> bool {
    workspace is None || !workspace_exists
}

/// Whether an index is removed when the registry is cleaned.
pub fn should_clean(info: &IndexInfo, workspace_exists: bool) -> (r: bool)
    ensures
        r == is_orphan(option_view(info.workspace), workspace_exists),
{
    match &info.workspace {
        Some(_) => !workspace_exists,
        None => true,
    }
}

/// An identifier names an index by its workspace: the recorded root equals
/// the identifier's canonical path where the identifier is a path that
/// exists, and holds the identifier as it stands otherwise.
pub open spec fn names_workspace(
    workspace: Option<Seq<char>>,
    identifier: Seq<char>,
    canonical: Option<Seq<char>>,
) -> bool {
    match workspace {
        Some(recorded) => match canonical {
            Some(target) => recorded == target,
            None => has_infix(recorded, identifier),
        },
        None => false,
    }
}

/// Whether an identifier names the index by its directory name.
pub fn is_named_by_hash(info: &IndexInfo, identifier: &str) -> (r: bool)
    ensures
        r == (info.hash@ == identifier@),
{
    same_text(info.hash.as_str(), identifier)
}

/// Whether an identifier names the index by its workspace. `canonical` is
/// the canonical form of the identifier read as a path, where that exists.
pub fn is_named_by_workspace(info: &IndexInfo, identifier: &str, canonical: Option<&str>) -> (r:
    bool)
    ensures
        r == names_workspace(
            option_view(info.workspace),
            identifier@,
            match canonical {
                Some(c) => Some(c@),
                None => None,
            },
        ),
{
    match &info.workspace {
        Some(recorded) => match canonical {
            Some(target) => same_text(recorded.as_str(), target),
            None => contains(&to_chars(recorded.as_str()), &to_chars(identifier)),
        },
        None => false,
    }
}

/// The sum of the sizes, capped at the largest value.
pub open spec fn total_size_of(sizes: Seq<u64>) -> int
    decreases sizes.len(),
{
    if sizes.len() == 0 {
        0
    } else {
        total_size_of(sizes.drop_last()) + sizes.last()
    }
}

/// The sizes of a list of indices.
pub open spec fn sizes_of(infos: Seq<IndexInfo>) -> Seq<u64> {
    Seq::new(infos.len(), |i: int| infos[i].size_bytes)
}

/// The size of all indices together, `None` where it does not fit 64 bits.
pub fn total_size(infos: &Vec<IndexInfo>) -> (r: Option<u64>)
    ensures
        match r {
            Some(total) => total == total_size_of(sizes_of(infos@)),
            None => total_size_of(sizes_of(infos@)) > u64::MAX,
        },
{
    let mut total: u64 = 0;
    let mut i: usize = 0;
    assert(sizes_of(infos@).take(0) =~= Seq::empty());
    while i < infos.len()
        invariant
            i <= infos.len(),
            total == total_size_of(sizes_of(infos@).take(i as int)),
        decreases infos.len() - i,
    {
        proof {
            assert(sizes_of(infos@).take(i + 1).drop_last() =~= sizes_of(infos@).take(i as int));
            assert(sizes_of(infos@).take(i + 1).last() == infos@[i as int].size_bytes);
        }
        if infos[i].size_bytes > u64::MAX - total {
            proof {
                lemma_total_grows(sizes_of(infos@), i + 1);
            }
            return None;
        }
        total = total + infos[i].size_bytes;
        i += 1;
    }
    assert(sizes_of(infos@).take(infos@.len() as int) =~= sizes_of(infos@));
    Some(total)
}

proof fn lemma_total_grows(sizes: Seq<u64>, n: int)
    requires
        0 <= n <= sizes.len(),
    ensures
        total_size_of(sizes.take(n)) <= total_size_of(sizes),
    decreases sizes.len() - n,
{
    if n == sizes.len() {
        assert(sizes.take(n) =~= sizes);
    } else {
        lemma_total_grows(sizes, n + 1);
        assert(sizes.take(n + 1).drop_last() =~= sizes.take(n));
    }
}

} // verus!
