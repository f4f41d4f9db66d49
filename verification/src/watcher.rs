//! Turning raw change notifications into index updates.
//!
//! The operating system's notifications arrive at the caller, which hands
//! them over as plain values. Here they are filtered, classified and freed
//! of repeats.

use vstd::prelude::*;
use crate::glob::{any_glob_matches, matches_ignore_pattern};
use crate::paths::{
    is_hidden, is_ignored_dir, is_under, path_is_hidden, path_is_pruned, path_is_under,
};
use crate::config::IndexerConfig;
use crate::error::YgrepError;
use crate::text::{same_text, views};

verus! {

/// How long raw notifications are gathered into one batch, in
/// milliseconds.
pub const DEBOUNCE_MILLIS: u64 = 500;

/// A change that the consumer of the watcher acts on.
#[derive(Debug, Clone)]
pub enum WatchEvent {
    /// A file was created or modified.
    Changed(String),
    /// Something was removed.
    Deleted(String),
    /// A directory was created.
    DirCreated(String),
    /// A directory was removed.
    DirDeleted(String),
    /// Watching failed; the message says how.
    Error(String),
}

/// The mathematical value of a watch event.
pub enum WatchEventView {
    Changed(Seq<char>),
    Deleted(Seq<char>),
    DirCreated(Seq<char>),
    DirDeleted(Seq<char>),
    Error(Seq<char>),
}

impl View for WatchEvent {
    type V = WatchEventView;

    open spec fn view(&self) -> WatchEventView {
        match *self {
            WatchEvent::Changed(p) => WatchEventView::Changed(p@),
            WatchEvent::Deleted(p) => WatchEventView::Deleted(p@),
            WatchEvent::DirCreated(p) => WatchEventView::DirCreated(p@),
            WatchEvent::DirDeleted(p) => WatchEventView::DirDeleted(p@),
            WatchEvent::Error(m) => WatchEventView::Error(m@),
        }
    }
}

/// The views of a list of events.
pub open spec fn event_views(events: Seq<WatchEvent>) -> Seq<WatchEventView> {
    Seq::new(events.len(), |i: int| events[i]@)
}

/// The kind of a raw notification.
#[derive(Debug, Clone, Copy, PartialEq, Eq, Structural)]
pub enum ChangeKind {
    Create,
    Modify,
    Remove,
    Other,
}

/// What stands at a path at the time of a notification.
#[derive(Debug, Clone, Copy, PartialEq, Eq, Structural)]
pub enum EntryKind {
    Directory,
    File,
    Neither,
}

/// One path of a raw notification with what stands there.
#[derive(Debug, Clone)]
pub struct ChangedPath {
    pub path: String,
    pub entry: EntryKind,
}

/// The path lies under one of the watched roots.
pub open spec fn is_watched(path: Seq<char>, roots: Seq<Seq<char>>) -> bool {
    exists|i: int| 0 <= i < roots.len() && is_under(path, #[trigger] roots[i])
}

/// A notification for the path is passed on: the path is watched, not
/// hidden, not under a pruned directory and not ignored by a pattern.
pub open spec fn is_relevant(
    path: Seq<char>,
    roots: Seq<Seq<char>>,
    patterns: Seq<Seq<char>>,
) -> bool {
    &&& is_watched(path, roots)
    &&& !path_is_hidden(path)
    &&& !path_is_pruned(path)
    &&& !any_glob_matches(patterns, path)
}

/// The event that a notification of the given kind stands for, if any.
pub open spec fn classified(kind: ChangeKind, entry: EntryKind, path: Seq<char>) -> Option<
    WatchEventView,
> {
    match kind {
        ChangeKind::Create => match entry {
            EntryKind::Directory => Some(WatchEventView::DirCreated(path)),
            EntryKind::File => Some(WatchEventView::Changed(path)),
            EntryKind::Neither => None,
        },
        ChangeKind::Modify => match entry {
            EntryKind::File => Some(WatchEventView::Changed(path)),
            _ => None,
        },
        ChangeKind::Remove => Some(WatchEventView::Deleted(path)),
        ChangeKind::Other => None,
    }
}

/// The events of one raw notification: one for each relevant path that
/// classifies, in the order of the paths.
pub open spec fn events_of(
    kind: ChangeKind,
    paths: Seq<(Seq<char>, EntryKind)>,
    roots: Seq<Seq<char>>,
    patterns: Seq<Seq<char>>,
) -> Seq<WatchEventView>
    decreases paths.len(),
{
    if paths.len() == 0 {
        Seq::empty()
    } else {
        let before = events_of(kind, paths.drop_last(), roots, patterns);
        let (path, entry) = paths.last();
        if is_relevant(path, roots, patterns) && classified(kind, entry, path) is Some {
            before.push(classified(kind, entry, path)->0)
        } else {
            before
        }
    }
}

/// The paths of a notification as mathematical values.
pub open spec fn changed_views(paths: Seq<ChangedPath>) -> Seq<(Seq<char>, EntryKind)> {
    Seq::new(paths.len(), |i: int| (paths[i].path@, paths[i].entry))
}

/// Event `i` repeats an earlier one: it is a change or a deletion, and an
/// earlier event of the same kind names the same path.
pub open spec fn is_repeat(events: Seq<WatchEventView>, i: int) -> bool {
    exists|j: int| 0 <= j < i && #[trigger] repeats(events[j], events[i])
}

/// `later` says again what `earlier` said.
pub open spec fn repeats(earlier: WatchEventView, later: WatchEventView) -> bool {
    match later {
        WatchEventView::Changed(p) => earlier == WatchEventView::Changed(p),
        WatchEventView::Deleted(p) => earlier == WatchEventView::Deleted(p),
        _ => false,
    }
}

/// The events of a batch without repeats, in their order.
pub open spec fn without_repeats(events: Seq<WatchEventView>) -> Seq<WatchEventView>
    decreases events.len(),
{
    if events.len() == 0 {
        Seq::empty()
    } else {
        let before = without_repeats(events.drop_last());
        if is_repeat(events, events.len() - 1) {
            before
        } else {
            before.push(events.last())
        }
    }
}

/// The roots to watch: the workspace root, then, where links are followed,
/// every linked directory that is not pruned, each once.
pub open spec fn watch_roots_of(
    root: Seq<char>,
    follow_symlinks: bool,
    targets: Seq<(Seq<char>, bool)>,
) -> Seq<Seq<char>>
    decreases targets.len(),
{
    if !follow_symlinks || targets.len() == 0 {
        seq![root]
    } else {
        let before = watch_roots_of(root, follow_symlinks, targets.drop_last());
        let (canonical, is_dir) = targets.last();
        if is_dir && !path_is_pruned(canonical) && !before.subrange(1, before.len() as int).contains(
            canonical,
        ) {
            before.push(canonical)
        } else {
            before
        }
    }
}

/// A canonical link target with whether it is a directory.
#[derive(Debug, Clone)]
pub struct LinkTarget {
    pub canonical: String,
    pub is_dir: bool,
}

/// The link targets as mathematical values.
pub open spec fn target_views(targets: Seq<LinkTarget>) -> Seq<(Seq<char>, bool)> {
    Seq::new(targets.len(), |i: int| (targets[i].canonical@, targets[i].is_dir))
}

/// Whether the path lies under one of the watched roots.
pub fn is_under_watched(path: &str, roots: &Vec<String>) -> (r: bool)
    ensures
        r == is_watched(path@, views(roots@)),
{
    let mut i: usize = 0;
    while i < roots.len()
        invariant
            i <= roots.len(),
            forall|j: int| 0 <= j < i ==> !is_under(path@, #[trigger] views(roots@)[j]),
        decreases roots.len() - i,
    {
        assert(views(roots@)[i as int] == roots@[i as int]@);
        if path_is_under(path, roots[i].as_str()) {
            return true;
        }
        i += 1;
    }
    false
}

/// Whether a notification for the path is passed on.
pub fn is_relevant_path(path: &str, roots: &Vec<String>, patterns: &Vec<String>) -> (r: bool)
    ensures
        r == is_relevant(path@, views(roots@), views(patterns@)),
{
    is_under_watched(path, roots) && !is_hidden(path) && !is_ignored_dir(path)
        && !matches_ignore_pattern(path, patterns)
}

/// The event that a notification of the given kind stands for, if any.
pub fn classify(kind: ChangeKind, entry: EntryKind, path: &str) -> (r: Option<WatchEvent>)
    ensures
        match r {
            Some(e) => classified(kind, entry, path@) == Some(e@),
            None => classified(kind, entry, path@) is None,
        },
{
    match kind {
        ChangeKind::Create => match entry {
            EntryKind::Directory => Some(WatchEvent::DirCreated(path.to_owned())),
            EntryKind::File => Some(WatchEvent::Changed(path.to_owned())),
            EntryKind::Neither => None,
        },
        ChangeKind::Modify => match entry {
            EntryKind::File => Some(WatchEvent::Changed(path.to_owned())),
            _ => None,
        },
        ChangeKind::Remove => Some(WatchEvent::Deleted(path.to_owned())),
        ChangeKind::Other => None,
    }
}

/// The events of one raw notification.
pub fn process_notify_event(
    kind: ChangeKind,
    paths: &Vec<ChangedPath>,
    roots: &Vec<String>,
    patterns: &Vec<String>,
) -> (events: Vec<WatchEvent>)
    ensures
        event_views(events@) == events_of(
            kind,
            changed_views(paths@),
            views(roots@),
            views(patterns@),
        ),
{
    let mut events: Vec<WatchEvent> = Vec::new();
    let mut i: usize = 0;
    assert(changed_views(paths@).take(0) =~= Seq::empty());
    assert(event_views(events@) =~= Seq::empty());
    while i < paths.len()
        invariant
            i <= paths.len(),
            event_views(events@) == events_of(
                kind,
                changed_views(paths@).take(i as int),
                views(roots@),
                views(patterns@),
            ),
        decreases paths.len() - i,
    {
        let ghost done = changed_views(paths@).take(i as int);
        let ghost next = changed_views(paths@).take(i + 1);
        let ghost before = event_views(events@);
        proof {
            assert(next.drop_last() =~= done);
            assert(next.last() == (paths@[i as int].path@, paths@[i as int].entry));
        }
        let path = paths[i].path.as_str();
        if is_relevant_path(path, roots, patterns) {
            match classify(kind, paths[i].entry, path) {
                Some(e) => {
                    events.push(e);
                    assert(event_views(events@) =~= before.push(e@));
                },
                None => {},
            }
        }
        i += 1;
    }
    assert(changed_views(paths@).take(paths@.len() as int) =~= changed_views(paths@));
    events
}

/// A copy of an event.
fn copy_of(event: &WatchEvent) -> (r: WatchEvent)
    ensures
        r@ == event@,
{
    match event {
        WatchEvent::Changed(p) => WatchEvent::Changed(p.clone()),
        WatchEvent::Deleted(p) => WatchEvent::Deleted(p.clone()),
        WatchEvent::DirCreated(p) => WatchEvent::DirCreated(p.clone()),
        WatchEvent::DirDeleted(p) => WatchEvent::DirDeleted(p.clone()),
        WatchEvent::Error(m) => WatchEvent::Error(m.clone()),
    }
}

/// Whether `later` says again what `earlier` said.
fn repeats_exec(earlier: &WatchEvent, later: &WatchEvent) -> (r: bool)
    ensures
        r == repeats(earlier@, later@),
{
    match later {
        WatchEvent::Changed(p) => match earlier {
            WatchEvent::Changed(q) => same_text(q.as_str(), p.as_str()),
            _ => false,
        },
        WatchEvent::Deleted(p) => match earlier {
            WatchEvent::Deleted(q) => same_text(q.as_str(), p.as_str()),
            _ => false,
        },
        _ => false,
    }
}

/// The events of one batch without repeats: of several changes to one
/// path, and of several deletions of one path, only the first stays.
pub fn dedup_batch(events: Vec<WatchEvent>) -> (kept: Vec<WatchEvent>)
    ensures
        event_views(kept@) == without_repeats(event_views(events@)),
{
    let mut kept: Vec<WatchEvent> = Vec::new();
    let mut i: usize = 0;
    let ghost all = event_views(events@);
    assert(all.take(0) =~= Seq::empty());
    assert(event_views(kept@) =~= Seq::empty());
    while i < events.len()
        invariant
            i <= events.len(),
            all == event_views(events@),
            event_views(kept@) == without_repeats(all.take(i as int)),
        decreases events.len() - i,
    {
        let ghost before = event_views(kept@);
        let mut repeat = false;
        let mut j: usize = 0;
        while j < i
            invariant
                j <= i < events.len(),
                all == event_views(events@),
                repeat == exists|k: int| 0 <= k < j && #[trigger] repeats(all[k], all[i as int]),
            decreases i - j,
        {
            if repeats_exec(&events[j], &events[i]) {
                assert(repeats(all[j as int], all[i as int]));
                repeat = true;
            }
            j += 1;
        }
        proof {
            let next = all.take(i + 1);
            assert(next.drop_last() =~= all.take(i as int));
            assert(next.last() == all[i as int]);
            assert(is_repeat(next, i as int) == repeat) by {
                if repeat {
                    let k = choose|k: int| 0 <= k < i && #[trigger] repeats(all[k], all[i as int]);
                    assert(repeats(next[k], next[i as int]));
                }
                if is_repeat(next, i as int) {
                    let k = choose|k: int| 0 <= k < i && #[trigger] repeats(next[k], next[i as int]);
                    assert(repeats(all[k], all[i as int]));
                }
            }
        }
        if !repeat {
            kept.push(copy_of(&events[i]));
            assert(event_views(kept@) =~= before.push(all[i as int]));
        }
        i += 1;
    }
    assert(all.take(events@.len() as int) =~= all);
    kept
}


/// The roots to watch for a workspace.
pub fn watch_roots(root: &str, follow_symlinks: bool, targets: &Vec<LinkTarget>) -> (roots: Vec<
    String,
>)
    ensures
        views(roots@) == watch_roots_of(root@, follow_symlinks, target_views(targets@)),
{
    let mut roots: Vec<String> = Vec::new();
    roots.push(root.to_owned());
    assert(views(roots@) =~= seq![root@]);
    if !follow_symlinks {
        return roots;
    }
    let mut i: usize = 0;
    assert(target_views(targets@).take(0) =~= Seq::empty());
    while i < targets.len()
        invariant
            i <= targets.len(),
            follow_symlinks,
            roots@.len() >= 1,
            views(roots@) == watch_roots_of(
                root@,
                follow_symlinks,
                target_views(targets@).take(i as int),
            ),
        decreases targets.len() - i,
    {
        let ghost before = views(roots@);
        let ghost next = target_views(targets@).take(i + 1);
        proof {
            assert(next.drop_last() =~= target_views(targets@).take(i as int));
            assert(next.last() == (targets@[i as int].canonical@, targets@[i as int].is_dir));
        }
        let canonical = targets[i].canonical.as_str();
        if targets[i].is_dir && !is_ignored_dir(canonical) {
            let mut known = false;
            let mut j: usize = 1;
            while j < roots.len()
                invariant
                    1 <= j <= roots.len(),
                    known == exists|k: int| 1 <= k < j && views(roots@)[k] == canonical@,
                decreases roots.len() - j,
            {
                if same_text(roots[j].as_str(), canonical) {
                    assert(views(roots@)[j as int] == canonical@);
                    known = true;
                }
                j += 1;
            }
            proof {
                let tail = before.subrange(1, before.len() as int);
                assert(tail.contains(canonical@) == known) by {
                    if known {
                        let k = choose|k: int| 1 <= k < before.len() && before[k] == canonical@;
                        assert(tail[k - 1] == canonical@);
                    }
                    if tail.contains(canonical@) {
                        let k = choose|k: int| 0 <= k < tail.len() && tail[k] == canonical@;
                        assert(before[k + 1] == canonical@);
                    }
                }
            }
            if !known {
                roots.push(targets[i].canonical.clone());
                assert(views(roots@) =~= before.push(canonical@));
            }
        }
        i += 1;
    }
    assert(target_views(targets@).take(targets@.len() as int) =~= target_views(targets@));
    roots
}


/// One raw notification: its kind and the paths it names.
#[derive(Debug, Clone)]
pub struct Notification {
    pub kind: ChangeKind,
    pub paths: Vec<ChangedPath>,
}

/// The notifications as mathematical values.
pub open spec fn notification_views(list: Seq<Notification>) -> Seq<
    (ChangeKind, Seq<(Seq<char>, EntryKind)>),
> {
    Seq::new(list.len(), |i: int| (list[i].kind, changed_views(list[i].paths@)))
}

/// The events of a series of notifications, one notification after the
/// other, repeats included.
pub open spec fn all_events_of(
    notifications: Seq<(ChangeKind, Seq<(Seq<char>, EntryKind)>)>,
    roots: Seq<Seq<char>>,
    patterns: Seq<Seq<char>>,
) -> Seq<WatchEventView>
    decreases notifications.len(),
{
    if notifications.len() == 0 {
        Seq::empty()
    } else {
        all_events_of(notifications.drop_last(), roots, patterns) + events_of(
            notifications.last().0,
            notifications.last().1,
            roots,
            patterns,
        )
    }
}

/// One error event for each message.
pub open spec fn error_events(messages: Seq<Seq<char>>) -> Seq<WatchEventView> {
    Seq::new(messages.len(), |i: int| WatchEventView::Error(messages[i]))
}

/// What stands for a watcher once the notifications are taken care of by
/// the caller: the workspace root, the settings, and the roots to watch.
pub struct FileWatcher {
    root: String,
    config: IndexerConfig,
    watched_paths: Vec<String>,
}

impl FileWatcher {
    /// The workspace root.
    pub closed spec fn root_view(&self) -> Seq<char> {
        self.root@
    }

    /// The roots that are watched, the workspace root first.
    pub closed spec fn watched(&self) -> Seq<Seq<char>> {
        views(self.watched_paths@)
    }

    /// The ignore patterns in force.
    pub closed spec fn patterns(&self) -> Seq<Seq<char>> {
        views(self.config.ignore_patterns@)
    }

    /// A watcher for the workspace at `root`. `targets` are the canonical
    /// targets of the symbolic links found under the root.
    pub fn new(root: String, config: IndexerConfig, targets: &Vec<LinkTarget>) -> (w: Self)
        ensures
            w.root_view() == root@,
            w.patterns() == views(config.ignore_patterns@),
            w.watched() == watch_roots_of(root@, config.follow_symlinks, target_views(targets@)),
    {
        let watched_paths = watch_roots(root.as_str(), config.follow_symlinks, targets);
        FileWatcher { root, config, watched_paths }
    }

    /// The workspace root.
    pub fn root(&self) -> (r: &str)
        ensures
            r@ == self.root_view(),
    {
        self.root.as_str()
    }

    /// The roots to watch, the workspace root first.
    pub fn watched_paths(&self) -> (r: &Vec<String>)
        ensures
            views(r@) == self.watched(),
    {
        &self.watched_paths
    }

    /// Whether watching has started, given the roots that could not be
    /// watched with the reasons: it has unless the workspace root is among
    /// them. The first failure of the workspace root is reported.
    pub fn start(&self, failures: &Vec<(String, String)>) -> (r: Result<(), YgrepError>)
        ensures
            match r {
                Ok(_) => forall|i: int|
                    0 <= i < failures@.len() ==> (#[trigger] failures@[i]).0@ != self.root_view(),
                Err(YgrepError::WatchError(m)) => exists|i: int|
                    0 <= i < failures@.len() && (#[trigger] failures@[i]).0@ == self.root_view()
                        && m@ == failures@[i].1@ && forall|j: int|
                        0 <= j < i ==> (#[trigger] failures@[j]).0@ != self.root_view(),
                Err(_) => false,
            },
    {
        let mut i: usize = 0;
        while i < failures.len()
            invariant
                i <= failures.len(),
                forall|j: int| 0 <= j < i ==> (#[trigger] failures@[j]).0@ != self.root_view(),
            decreases failures.len() - i,
        {
            if same_text(failures[i].0.as_str(), self.root.as_str()) {
                return Err(YgrepError::WatchError(failures[i].1.clone()));
            }
            i += 1;
        }
        Ok(())
    }

    /// The events of one batch of notifications: those of each notification
    /// in turn, without repeats; or, where the batch is a failure, one error
    /// event for each message.
    pub fn process_batch(&self, batch: &Result<Vec<Notification>, Vec<String>>) -> (events: Vec<
        WatchEvent,
    >)
        ensures
            event_views(events@) == match *batch {
                Ok(notifications) => without_repeats(
                    all_events_of(
                        notification_views(notifications@),
                        self.watched(),
                        self.patterns(),
                    ),
                ),
                Err(messages) => error_events(views(messages@)),
            },
    {
        match batch {
            Ok(notifications) => {
                let mut all: Vec<WatchEvent> = Vec::new();
                let mut i: usize = 0;
                assert(notification_views(notifications@).take(0) =~= Seq::empty());
                assert(event_views(all@) =~= Seq::empty());
                while i < notifications.len()
                    invariant
                        i <= notifications.len(),
                        event_views(all@) == all_events_of(
                            notification_views(notifications@).take(i as int),
                            self.watched(),
                            self.patterns(),
                        ),
                    decreases notifications.len() - i,
                {
                    let ghost next = notification_views(notifications@).take(i + 1);
                    let ghost before = event_views(all@);
                    proof {
                        assert(next.drop_last() =~= notification_views(notifications@).take(
                            i as int,
                        ));
                        assert(next.last() == notification_views(notifications@)[i as int]);
                    }
                    let mut found = process_notify_event(
                        notifications[i].kind,
                        &notifications[i].paths,
                        &self.watched_paths,
                        &self.config.ignore_patterns,
                    );
                    let ghost added = event_views(found@);
                    all.append(&mut found);
                    assert(event_views(all@) =~= before + added);
                    i += 1;
                }
                assert(notification_views(notifications@).take(notifications@.len() as int)
                    =~= notification_views(notifications@));
                dedup_batch(all)
            },
            Err(messages) => {
                let mut events: Vec<WatchEvent> = Vec::new();
                let mut i: usize = 0;
                while i < messages.len()
                    invariant
                        i <= messages.len(),
                        i == events@.len(),
                        forall|k: int|
                            0 <= k < i ==> (#[trigger] events@[k])@ == WatchEventView::Error(
                                messages@[k]@,
                            ),
                    decreases messages.len() - i,
                {
                    events.push(WatchEvent::Error(messages[i].clone()));
                    i += 1;
                }
                assert(event_views(events@) =~= error_events(views(messages@)));
                events
            },
        }
    }
}

} // verus!
