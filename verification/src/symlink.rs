//! Resolving paths through symbolic links without walking in circles.
//!
//! The resolver keeps the canonical paths it has handed out. It never looks
//! at the file system itself: the caller probes a path and passes what it
//! found as a [`PathProbe`].

use vstd::prelude::*;
use crate::error::YgrepError;
use crate::paths::{join, joined, name_start};
use crate::text::{from_chars, same_text, slice_of, to_chars, views};

verus! {

/// Why a path was passed over.
#[derive(Debug, Clone, Copy, PartialEq, Eq, Structural)]
pub enum SkipReason {
    CircularSymlink,
    SymlinkNotFollowed,
    BrokenSymlink,
    Duplicate,
    NotFound,
    DepthExceeded,
}

impl SkipReason {
    /// A short description for messages.
    pub fn label(&self) -> (s: &'static str)
        ensures
            s@ == match *self {
                SkipReason::CircularSymlink => "circular symlink"@,
                SkipReason::SymlinkNotFollowed => "symlink not followed"@,
                SkipReason::BrokenSymlink => "broken symlink"@,
                SkipReason::Duplicate => "duplicate path"@,
                SkipReason::NotFound => "not found"@,
                SkipReason::DepthExceeded => "symlink depth exceeded"@,
            },
    {
        match self {
            SkipReason::CircularSymlink => "circular symlink",
            SkipReason::SymlinkNotFollowed => "symlink not followed",
            SkipReason::BrokenSymlink => "broken symlink",
            SkipReason::Duplicate => "duplicate path",
            SkipReason::NotFound => "not found",
            SkipReason::DepthExceeded => "symlink depth exceeded",
        }
    }
}

/// The result of resolving a path.
#[derive(Debug, Clone)]
pub enum ResolvedPath {
    /// The path leads to `canonical`, which had not been seen before.
    Resolved { original: String, canonical: String, is_symlink: bool },
    /// The path was passed over.
    Skipped(SkipReason),
}

impl ResolvedPath {
    /// The canonical path, where there is one.
    pub fn canonical(&self) -> (r: Option<&str>)
        ensures
            match *self {
                ResolvedPath::Resolved { canonical, .. } => r matches Some(c) && c@ == canonical@,
                ResolvedPath::Skipped(_) => r is None,
            },
    {
        match self {
            ResolvedPath::Resolved { canonical, .. } => Some(canonical.as_str()),
            ResolvedPath::Skipped(_) => None,
        }
    }

    /// Whether the path was passed over.
    pub fn is_skipped(&self) -> (r: bool)
        ensures
            r == (*self is Skipped),
    {
        match self {
            ResolvedPath::Resolved { .. } => false,
            ResolvedPath::Skipped(_) => true,
        }
    }
}

/// What the file system says about a path, gathered without following it.
#[derive(Debug, Clone)]
pub enum PathProbe {
    /// Nothing exists at the path.
    NotFound,
    /// The path could not be examined; the message says why.
    Unreadable(String),
    /// The path is not a symbolic link. `canonical` is its canonical form,
    /// `None` where that could not be determined.
    Plain { canonical: Option<String> },
    /// The path is a symbolic link. `target` is what the link holds, `None`
    /// where it could not be read. `canonical` is the canonical form of the
    /// link's destination, `None` where the destination does not exist.
    Link { target: Option<String>, canonical: Option<String> },
}

/// The mathematical value of a probe.
pub enum ProbeView {
    NotFound,
    Unreadable(Seq<char>),
    Plain { canonical: Option<Seq<char>> },
    Link { target: Option<Seq<char>>, canonical: Option<Seq<char>> },
}

/// The view of an optional string.
pub open spec fn option_view(o: Option<String>) -> Option<Seq<char>> {
    match o {
        Some(s) => Some(s@),
        None => None,
    }
}

impl View for PathProbe {
    type V = ProbeView;

    open spec fn view(&self) -> ProbeView {
        match *self {
            PathProbe::NotFound => ProbeView::NotFound,
            PathProbe::Unreadable(m) => ProbeView::Unreadable(m@),
            PathProbe::Plain { canonical } => ProbeView::Plain { canonical: option_view(canonical) },
            PathProbe::Link { target, canonical } => ProbeView::Link {
                target: option_view(target),
                canonical: option_view(canonical),
            },
        }
    }
}

/// What a resolution comes to.
pub enum Outcome {
    /// The chain of links is too long.
    DepthExceeded,
    /// The path could not be examined.
    Unreadable(Seq<char>),
    /// A relative link stands at a path without a parent.
    InvalidPath,
    /// The path is passed over.
    Skipped(SkipReason),
    /// The path resolves to a canonical path not seen before.
    Resolved { canonical: Seq<char>, is_symlink: bool },
}

/// The path has a parent directory: it is not empty and not the root.
pub open spec fn has_parent(path: Seq<char>) -> bool {
    path.len() > 0 && path != seq!['/']
}

/// The parent directory of a path: what stands before its last component.
pub open spec fn parent_of(path: Seq<char>) -> Seq<char> {
    let start = name_start(trimmed(path));
    if start <= 1 {
        path.subrange(0, start)
    } else {
        path.subrange(0, start - 1)
    }
}

/// A path without one trailing `/`, the root excepted.
pub open spec fn trimmed(path: Seq<char>) -> Seq<char> {
    if path.len() > 1 && path.last() == '/' {
        path.drop_last()
    } else {
        path
    }
}

/// Where a link at `path` that holds `target` leads: `target` itself where
/// it is absolute, else `target` taken from the link's directory.
pub open spec fn link_destination_of(path: Seq<char>, target: Seq<char>) -> Option<Seq<char>> {
    if target.len() > 0 && target[0] == '/' {
        Some(target)
    } else if has_parent(path) {
        Some(joined(parent_of(path), target))
    } else {
        None
    }
}

/// The outcome of resolving `path` at link depth `depth`, given what the
/// file system said and what has been handed out before.
pub open spec fn resolve_spec(
    path: Seq<char>,
    probe: ProbeView,
    visited: Seq<Seq<char>>,
    follow_symlinks: bool,
    max_depth: usize,
    depth: usize,
) -> Outcome {
    if depth > max_depth {
        Outcome::DepthExceeded
    } else {
        match probe {
            ProbeView::NotFound => Outcome::Skipped(SkipReason::NotFound),
            ProbeView::Unreadable(message) => Outcome::Unreadable(message),
            ProbeView::Link { target, canonical } => {
                if !follow_symlinks {
                    Outcome::Skipped(SkipReason::SymlinkNotFollowed)
                } else if target is None {
                    Outcome::Skipped(SkipReason::BrokenSymlink)
                } else if link_destination_of(path, target->0) is None {
                    Outcome::InvalidPath
                } else if canonical is None {
                    Outcome::Skipped(SkipReason::BrokenSymlink)
                } else if visited.contains(canonical->0) {
                    Outcome::Skipped(SkipReason::CircularSymlink)
                } else {
                    Outcome::Resolved { canonical: canonical->0, is_symlink: true }
                }
            },
            ProbeView::Plain { canonical } => {
                let place = match canonical {
                    Some(c) => c,
                    None => path,
                };
                if visited.contains(place) {
                    Outcome::Skipped(SkipReason::Duplicate)
                } else {
                    Outcome::Resolved { canonical: place, is_symlink: false }
                }
            },
        }
    }
}

/// The outcome that a returned value stands for, read for the path `path`.
pub open spec fn outcome_of(r: Result<ResolvedPath, YgrepError>, path: Seq<char>) -> Option<
    Outcome,
> {
    match r {
        Ok(ResolvedPath::Skipped(reason)) => Some(Outcome::Skipped(reason)),
        Ok(ResolvedPath::Resolved { original, canonical, is_symlink }) => if original@ == path {
            Some(Outcome::Resolved { canonical: canonical@, is_symlink })
        } else {
            None
        },
        Err(YgrepError::SymlinkDepthExceeded(p)) => if p@ == path {
            Some(Outcome::DepthExceeded)
        } else {
            None
        },
        Err(YgrepError::InvalidPath(p)) => if p@ == path {
            Some(Outcome::InvalidPath)
        } else {
            None
        },
        Err(YgrepError::Io(message)) => Some(Outcome::Unreadable(message@)),
        Err(_) => None,
    }
}

/// The paths handed out after a resolution with the given outcome.
pub open spec fn visited_after(visited: Seq<Seq<char>>, outcome: Outcome) -> Seq<Seq<char>> {
    match outcome {
        Outcome::Resolved { canonical, .. } => visited.push(canonical),
        _ => visited,
    }
}

/// The paths handed out after a series of resolutions, one after the
/// other.
pub open spec fn visited_after_all(
    visited: Seq<Seq<char>>,
    items: Seq<(Seq<char>, ProbeView)>,
    follow_symlinks: bool,
    max_depth: usize,
) -> Seq<Seq<char>>
    decreases items.len(),
{
    if items.len() == 0 {
        visited
    } else {
        let before = visited_after_all(visited, items.drop_last(), follow_symlinks, max_depth);
        visited_after(
            before,
            resolve_spec(items.last().0, items.last().1, before, follow_symlinks, max_depth, 0),
        )
    }
}

/// One resolution hands out a canonical path only if it was not handed
/// out before.
pub proof fn lemma_resolution_keeps_paths_distinct(
    path: Seq<char>,
    probe: ProbeView,
    visited: Seq<Seq<char>>,
    follow_symlinks: bool,
    max_depth: usize,
    depth: usize,
)
    requires
        visited.no_duplicates(),
    ensures
        visited_after(
            visited,
            resolve_spec(path, probe, visited, follow_symlinks, max_depth, depth),
        ).no_duplicates(),
{
    let outcome = resolve_spec(path, probe, visited, follow_symlinks, max_depth, depth);
    if outcome is Resolved {
        let place = outcome->Resolved_canonical;
        assert(!visited.contains(place));
        let after = visited.push(place);
        assert forall|i: int, j: int| 0 <= i < after.len() && 0 <= j < after.len() && i
            != j implies after[i] != after[j] by {
            if i < visited.len() {
                assert(visited.contains(visited[i]));
            }
            if j < visited.len() {
                assert(visited.contains(visited[j]));
            }
        }
    }
}

/// Over a whole walk no canonical path is handed out twice, whatever the
/// paths and whatever the file system says of them.
pub proof fn lemma_walk_keeps_paths_distinct(
    visited: Seq<Seq<char>>,
    items: Seq<(Seq<char>, ProbeView)>,
    follow_symlinks: bool,
    max_depth: usize,
)
    requires
        visited.no_duplicates(),
    ensures
        visited_after_all(visited, items, follow_symlinks, max_depth).no_duplicates(),
    decreases items.len(),
{
    if items.len() > 0 {
        lemma_walk_keeps_paths_distinct(visited, items.drop_last(), follow_symlinks, max_depth);
        lemma_resolution_keeps_paths_distinct(
            items.last().0,
            items.last().1,
            visited_after_all(visited, items.drop_last(), follow_symlinks, max_depth),
            follow_symlinks,
            max_depth,
            0,
        );
    }
}

/// Resolves paths and remembers the canonical paths it has handed out.
pub struct SymlinkResolver {
    visited_canonical: Vec<String>,
    max_depth: usize,
    follow_symlinks: bool,
}

impl SymlinkResolver {
    /// The canonical paths handed out so far, in order.
    pub closed spec fn visited(&self) -> Seq<Seq<char>> {
        views(self.visited_canonical@)
    }

    /// The longest chain of links that is followed.
    pub closed spec fn max_depth(&self) -> usize {
        self.max_depth
    }

    /// Whether links are followed.
    pub closed spec fn follows_symlinks(&self) -> bool {
        self.follow_symlinks
    }

    /// No canonical path is held twice. A new resolver has this property
    /// and every operation keeps it.
    pub open spec fn holds_nothing_twice(&self) -> bool {
        self.visited().no_duplicates()
    }

    /// A resolver that has seen nothing.
    pub fn new(follow_symlinks: bool, max_depth: usize) -> (r: Self)
        ensures
            r.visited() == Seq::<Seq<char>>::empty(),
            r.max_depth() == max_depth,
            r.follows_symlinks() == follow_symlinks,
            r.holds_nothing_twice(),
    {
        let r = SymlinkResolver { visited_canonical: Vec::new(), max_depth, follow_symlinks };
        assert(r.visited() =~= Seq::<Seq<char>>::empty());
        r
    }

    /// Whether a canonical path has been handed out.
    pub fn is_visited(&self, canonical: &str) -> (r: bool)
        ensures
            r == self.visited().contains(canonical@),
    {
        let mut i: usize = 0;
        while i < self.visited_canonical.len()
            invariant
                i <= self.visited_canonical.len(),
                forall|j: int| 0 <= j < i ==> self.visited()[j] != canonical@,
            decreases self.visited_canonical.len() - i,
        {
            if same_text(self.visited_canonical[i].as_str(), canonical) {
                assert(self.visited()[i as int] == canonical@);
                return true;
            }
            i += 1;
        }
        false
    }

    /// Records a canonical path as handed out, unless it already is.
    pub fn mark_visited(&mut self, canonical: String)
        ensures
            final(self).visited() == if old(self).visited().contains(canonical@) {
                old(self).visited()
            } else {
                old(self).visited().push(canonical@)
            },
            final(self).max_depth() == old(self).max_depth(),
            final(self).follows_symlinks() == old(self).follows_symlinks(),
            old(self).holds_nothing_twice() ==> final(self).holds_nothing_twice(),
    {
        if !self.is_visited(canonical.as_str()) {
            let ghost before = self.visited();
            self.visited_canonical.push(canonical);
            proof {
                assert(self.visited() =~= before.push(canonical@));
                if before.no_duplicates() {
                    assert forall|i: int, j: int|
                        0 <= i < self.visited().len() && 0 <= j < self.visited().len() && i
                            != j implies self.visited()[i] != self.visited()[j] by {
                        if i < before.len() {
                            assert(before[i] == self.visited()[i]);
                        }
                        if j < before.len() {
                            assert(before[j] == self.visited()[j]);
                        }
                    }
                }
            }
        }
    }

    /// Forgets every path, for a new walk.
    pub fn reset(&mut self)
        ensures
            final(self).visited() == Seq::<Seq<char>>::empty(),
            final(self).max_depth() == old(self).max_depth(),
            final(self).follows_symlinks() == old(self).follows_symlinks(),
            old(self).holds_nothing_twice() ==> final(self).holds_nothing_twice(),
    {
        self.visited_canonical.clear();
        assert(self.visited() =~= Seq::<Seq<char>>::empty());
    }

    /// The number of canonical paths handed out.
    pub fn visited_count(&self) -> (n: usize)
        ensures
            n == self.visited().len(),
    {
        self.visited_canonical.len()
    }

    /// Resolves a path that the caller has probed.
    pub fn resolve(&mut self, path: &str, probe: &PathProbe) -> (r: Result<
        ResolvedPath,
        YgrepError,
    >)
        ensures
            outcome_of(r, path@) == Some(
                resolve_spec(
                    path@,
                    probe@,
                    old(self).visited(),
                    old(self).follows_symlinks(),
                    old(self).max_depth(),
                    0,
                ),
            ),
            final(self).visited() == visited_after(
                old(self).visited(),
                resolve_spec(
                    path@,
                    probe@,
                    old(self).visited(),
                    old(self).follows_symlinks(),
                    old(self).max_depth(),
                    0,
                ),
            ),
            final(self).max_depth() == old(self).max_depth(),
            final(self).follows_symlinks() == old(self).follows_symlinks(),
            old(self).holds_nothing_twice() ==> final(self).holds_nothing_twice(),
    {
        self.resolve_at_depth(path, probe, 0)
    }

    /// Resolves a path reached through `depth` links.
    pub fn resolve_at_depth(&mut self, path: &str, probe: &PathProbe, depth: usize) -> (r: Result<
        ResolvedPath,
        YgrepError,
    >)
        ensures
            outcome_of(r, path@) == Some(
                resolve_spec(
                    path@,
                    probe@,
                    old(self).visited(),
                    old(self).follows_symlinks(),
                    old(self).max_depth(),
                    depth,
                ),
            ),
            final(self).visited() == visited_after(
                old(self).visited(),
                resolve_spec(
                    path@,
                    probe@,
                    old(self).visited(),
                    old(self).follows_symlinks(),
                    old(self).max_depth(),
                    depth,
                ),
            ),
            final(self).max_depth() == old(self).max_depth(),
            final(self).follows_symlinks() == old(self).follows_symlinks(),
            old(self).holds_nothing_twice() ==> final(self).holds_nothing_twice(),
    {
        if depth > self.max_depth {
            return Err(YgrepError::SymlinkDepthExceeded(path.to_owned()));
        }
        match probe {
            PathProbe::NotFound => Ok(ResolvedPath::Skipped(SkipReason::NotFound)),
            PathProbe::Unreadable(message) => Err(YgrepError::Io(message.clone())),
            PathProbe::Link { target, canonical } => {
                if !self.follow_symlinks {
                    return Ok(ResolvedPath::Skipped(SkipReason::SymlinkNotFollowed));
                }
                let target = match target {
                    Some(t) => t,
                    None => {
                        return Ok(ResolvedPath::Skipped(SkipReason::BrokenSymlink));
                    },
                };
                if link_destination(path, target.as_str()).is_none() {
                    return Err(YgrepError::InvalidPath(path.to_owned()));
                }
                let canonical = match canonical {
                    Some(c) => c,
                    None => {
                        return Ok(ResolvedPath::Skipped(SkipReason::BrokenSymlink));
                    },
                };
                if self.is_visited(canonical.as_str()) {
                    return Ok(ResolvedPath::Skipped(SkipReason::CircularSymlink));
                }
                self.mark_visited(canonical.clone());
                Ok(
                    ResolvedPath::Resolved {
                        original: path.to_owned(),
                        canonical: canonical.clone(),
                        is_symlink: true,
                    },
                )
            },
            PathProbe::Plain { canonical } => {
                let place: String = match canonical {
                    Some(c) => c.clone(),
                    None => path.to_owned(),
                };
                if self.is_visited(place.as_str()) {
                    return Ok(ResolvedPath::Skipped(SkipReason::Duplicate));
                }
                self.mark_visited(place.clone());
                Ok(
                    ResolvedPath::Resolved {
                        original: path.to_owned(),
                        canonical: place,
                        is_symlink: false,
                    },
                )
            },
        }
    }
}

/// The parent directory of a path, where it has one.
pub fn parent(path: &str) -> (r: Option<String>)
    ensures
        match r {
            Some(p) => has_parent(path@) && p@ == parent_of(path@),
            None => !has_parent(path@),
        },
{
    let chars = to_chars(path);
    let n = chars.len();
    if n == 0 || (n == 1 && chars[0] == '/') {
        proof {
            if n == 1 {
                assert(chars@ =~= seq!['/']);
            }
        }
        return None;
    }
    proof {
        assert(seq!['/'].len() == 1);
    }
    let end: usize = if n > 1 && chars[n - 1] == '/' {
        n - 1
    } else {
        n
    };
    let ghost trim = trimmed(chars@);
    assert(trim =~= chars@.take(end as int));
    let mut i: usize = end;
    assert(trim.take(i as int) =~= trim);
    while i > 0 && chars[i - 1] != '/'
        invariant
            i <= end <= n,
            n == chars@.len(),
            trim == chars@.take(end as int),
            name_start(trim) == name_start(trim.take(i as int)),
        decreases i,
    {
        proof {
            assert(trim.take(i as int).drop_last() =~= trim.take(i - 1));
        }
        i -= 1;
    }
    proof {
        if i > 0 {
            assert(trim.take(i as int).last() == '/');
        }
    }
    let stop: usize = if i <= 1 {
        i
    } else {
        i - 1
    };
    Some(from_chars(&slice_of(&chars, 0, stop)))
}

/// Where a link at `path` that holds `target` leads, before canonicalizing.
/// `None` where the link is relative and `path` has no parent.
pub fn link_destination(path: &str, target: &str) -> (r: Option<String>)
    ensures
        option_view(r) == link_destination_of(path@, target@),
{
    let target_chars = to_chars(target);
    if target_chars.len() > 0 && target_chars[0] == '/' {
        return Some(target.to_owned());
    }
    match parent(path) {
        Some(dir) => Some(join(dir.as_str(), target)),
        None => None,
    }
}

/// Resolving the same plain path twice yields it once: where the first
/// resolution hands out a canonical path, a second one with the same probe
/// is skipped as a duplicate.
pub proof fn lemma_second_resolution_is_duplicate(
    path: Seq<char>,
    canonical: Option<Seq<char>>,
    visited: Seq<Seq<char>>,
    follow_symlinks: bool,
    max_depth: usize,
)
    requires
        resolve_spec(
            path,
            ProbeView::Plain { canonical },
            visited,
            follow_symlinks,
            max_depth,
            0,
        ) is Resolved,
    ensures
        resolve_spec(
            path,
            ProbeView::Plain { canonical },
            visited_after(
                visited,
                resolve_spec(
                    path,
                    ProbeView::Plain { canonical },
                    visited,
                    follow_symlinks,
                    max_depth,
                    0,
                ),
            ),
            follow_symlinks,
            max_depth,
            0,
        ) == Outcome::Skipped(SkipReason::Duplicate),
{
    let place = match canonical {
        Some(c) => c,
        None => path,
    };
    assert(visited.push(place)[visited.len() as int] == place);
}

/// Resolving the same link twice follows it once: where the first
/// resolution hands out the link's target, a second one with the same probe
/// is skipped as circular.
pub proof fn lemma_second_resolution_of_a_link_is_circular(
    path: Seq<char>,
    target: Option<Seq<char>>,
    canonical: Option<Seq<char>>,
    visited: Seq<Seq<char>>,
    follow_symlinks: bool,
    max_depth: usize,
)
    requires
        resolve_spec(
            path,
            ProbeView::Link { target, canonical },
            visited,
            follow_symlinks,
            max_depth,
            0,
        ) is Resolved,
    ensures
        resolve_spec(
            path,
            ProbeView::Link { target, canonical },
            visited_after(
                visited,
                resolve_spec(
                    path,
                    ProbeView::Link { target, canonical },
                    visited,
                    follow_symlinks,
                    max_depth,
                    0,
                ),
            ),
            follow_symlinks,
            max_depth,
            0,
        ) == Outcome::Skipped(SkipReason::CircularSymlink),
{
    let place = canonical->0;
    assert(visited.push(place)[visited.len() as int] == place);
}

/// No resolution is handed out twice: whatever the probe, a resolution
/// that follows one which handed out a canonical path does not hand out that
/// path again.
pub proof fn lemma_never_resolved_twice(
    path: Seq<char>,
    probe: ProbeView,
    next_path: Seq<char>,
    next_probe: ProbeView,
    visited: Seq<Seq<char>>,
    follow_symlinks: bool,
    max_depth: usize,
)
    requires
        resolve_spec(path, probe, visited, follow_symlinks, max_depth, 0) is Resolved,
    ensures
        ({
            let first = resolve_spec(path, probe, visited, follow_symlinks, max_depth, 0);
            let second = resolve_spec(
                next_path,
                next_probe,
                visited_after(visited, first),
                follow_symlinks,
                max_depth,
                0,
            );
            second is Resolved ==> second->Resolved_canonical != first->Resolved_canonical
        }),
{
    let first = resolve_spec(path, probe, visited, follow_symlinks, max_depth, 0);
    let place = first->Resolved_canonical;
    assert(visited.push(place)[visited.len() as int] == place);
}

} // verus!
