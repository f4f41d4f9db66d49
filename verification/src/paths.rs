//! Paths as text.
//!
//! A path is a string whose components are separated by `/`. The functions
//! here never touch the file system.

use vstd::prelude::*;
use crate::text::{concat, from_chars, occurs_at, occurs_at_exec, slice_of, to_chars};

verus! {

/// A component of the path begins at index `at`.
pub open spec fn component_starts(path: Seq<char>, at: int) -> bool {
    0 <= at < path.len() && path[at] != '/' && (at == 0 || path[at - 1] == '/')
}

/// The component `name` stands in the path at index `at`, whole.
pub open spec fn component_at(path: Seq<char>, name: Seq<char>, at: int) -> bool {
    &&& component_starts(path, at)
    &&& occurs_at(path, name, at)
    &&& (at + name.len() == path.len() || path[at + name.len()] == '/')
}

/// Some component of the path is `name`.
pub open spec fn has_component(path: Seq<char>, name: Seq<char>) -> bool {
    exists|at: int| component_at(path, name, at)
}

/// Some component of the path begins with a dot.
pub open spec fn path_is_hidden(path: Seq<char>) -> bool {
    exists|at: int| component_starts(path, at) && path[at] == '.'
}

/// The directory names under which nothing is indexed or watched.
pub open spec fn pruned_names() -> Seq<Seq<char>> {
    seq![
        "node_modules"@,
        "vendor"@,
        "target"@,
        "dist"@,
        "build"@,
        "cache"@,
        ".git"@,
        "__pycache__"@,
        "logs"@,
        "tmp"@,
        "temp"@,
        "var"@,
        "coverage"@,
        "htmlcov"@,
        ".svn"@,
    ]
}

/// `name` is one of the pruned directory names.
pub open spec fn is_pruned_name(name: Seq<char>) -> bool {
    pruned_names().contains(name)
}

/// Some component of the path is a pruned directory name.
pub open spec fn path_is_pruned(path: Seq<char>) -> bool {
    exists|i: int|
        0 <= i < pruned_names().len() && has_component(path, #[trigger] pruned_names()[i])
}

/// The index just behind the last `/` of the path, 0 where it has none.
pub open spec fn name_start(path: Seq<char>) -> int
    decreases path.len(),
{
    if path.len() == 0 {
        0
    } else if path.last() == '/' {
        path.len() as int
    } else {
        name_start(path.drop_last())
    }
}

/// The last component of the path: what follows its last `/`.
pub open spec fn file_name_of(path: Seq<char>) -> Seq<char> {
    path.subrange(name_start(path), path.len() as int)
}

/// The index of the last dot of `name`, -1 where it has none.
pub open spec fn last_dot(name: Seq<char>) -> int
    decreases name.len(),
{
    if name.len() == 0 {
        -1
    } else if name.last() == '.' {
        name.len() - 1
    } else {
        last_dot(name.drop_last())
    }
}

/// The extension of a file name: what follows its last dot, provided that
/// dot is not the name's first character.
pub open spec fn extension_of_name(name: Seq<char>) -> Option<Seq<char>> {
    let dot = last_dot(name);
    if dot <= 0 {
        None
    } else {
        Some(name.subrange(dot + 1, name.len() as int))
    }
}

/// The extension of a path's last component.
pub open spec fn extension_of(path: Seq<char>) -> Option<Seq<char>> {
    extension_of_name(file_name_of(path))
}

/// `path` made relative to `root`: the part behind `root` and one `/`
/// where `path` lies under `root`, empty where the two are equal, and
/// `path` itself otherwise. An empty root leaves every path as it is.
pub open spec fn relative_to(path: Seq<char>, root: Seq<char>) -> Seq<char> {
    if root.len() == 0 {
        path
    } else if path == root {
        Seq::empty()
    } else if root.last() == '/' && occurs_at(path, root, 0) {
        path.subrange(root.len() as int, path.len() as int)
    } else if occurs_at(path, root + seq!['/'], 0) {
        path.subrange(root.len() as int + 1, path.len() as int)
    } else {
        path
    }
}

/// `path` is `root` or lies under it. Every path lies under the empty root.
pub open spec fn is_under(path: Seq<char>, root: Seq<char>) -> bool {
    root.len() == 0 || path == root || (root.last() == '/' && occurs_at(path, root, 0))
        || occurs_at(path, root + seq!['/'], 0)
}

/// `base` and `name` joined by one `/`; `name` alone where `base` is empty.
pub open spec fn joined(base: Seq<char>, name: Seq<char>) -> Seq<char> {
    if base.len() == 0 {
        name
    } else if base.last() == '/' {
        base + name
    } else {
        base + seq!['/'] + name
    }
}

proof fn lemma_name_start_bounds(path: Seq<char>)
    ensures
        0 <= name_start(path) <= path.len(),
        name_start(path) > 0 ==> path[name_start(path) - 1] == '/',
        forall|j: int| name_start(path) <= j < path.len() ==> path[j] != '/',
    decreases path.len(),
{
    if path.len() > 0 && path.last() != '/' {
        let rest = path.drop_last();
        lemma_name_start_bounds(rest);
        assert forall|j: int| name_start(path) <= j < path.len() implies path[j] != '/' by {
            if j < rest.len() {
                assert(rest[j] == path[j]);
            }
        }
    }
}

proof fn lemma_last_dot_bounds(name: Seq<char>)
    ensures
        -1 <= last_dot(name) < name.len(),
        last_dot(name) >= 0 ==> name[last_dot(name)] == '.',
        forall|j: int| last_dot(name) < j < name.len() ==> name[j] != '.',
    decreases name.len(),
{
    if name.len() > 0 && name.last() != '.' {
        let rest = name.drop_last();
        lemma_last_dot_bounds(rest);
        assert forall|j: int| last_dot(name) < j < name.len() implies name[j] != '.' by {
            if j < rest.len() {
                assert(rest[j] == name[j]);
            }
        }
    }
}

/// Whether a component of the path begins at `at`.
fn component_starts_exec(path: &[char], at: usize) -> (r: bool)
    ensures
        r == component_starts(path@, at as int),
{
    at < path.len() && path[at] != '/' && (at == 0 || path[at - 1] == '/')
}

fn has_component_chars(path: &[char], name: &[char]) -> (r: bool)
    ensures
        r == has_component(path@, name@),
{
    let mut at: usize = 0;
    while at < path.len()
        invariant
            at <= path.len(),
            forall|j: int| 0 <= j < at ==> !component_at(path@, name@, j),
        decreases path.len() - at,
    {
        if component_starts_exec(path, at) && occurs_at_exec(path, name, at) {
            let end = at + name.len();
            if end == path.len() || path[end] == '/' {
                assert(component_at(path@, name@, at as int));
                return true;
            }
        }
        at += 1;
    }
    false
}

fn is_hidden_chars(path: &[char]) -> (r: bool)
    ensures
        r == path_is_hidden(path@),
{
    let mut at: usize = 0;
    while at < path.len()
        invariant
            at <= path.len(),
            forall|j: int| 0 <= j < at ==> !(component_starts(path@, j) && path@[j] == '.'),
        decreases path.len() - at,
    {
        if path[at] == '.' && component_starts_exec(path, at) {
            return true;
        }
        at += 1;
    }
    false
}

/// Whether some component of the path begins with a dot.
pub fn is_hidden(path: &str) -> (r: bool)
    ensures
        r == path_is_hidden(path@),
{
    let chars = to_chars(path);
    is_hidden_chars(&chars)
}

/// The pruned directory names, as a list.
pub fn pruned_name_list() -> (v: Vec<Vec<char>>)
    ensures
        v@.len() == pruned_names().len(),
        forall|i: int| 0 <= i < v@.len() ==> (#[trigger] v@[i])@ == pruned_names()[i],
{
    let mut v: Vec<Vec<char>> = Vec::new();
    v.push(to_chars("node_modules"));
    v.push(to_chars("vendor"));
    v.push(to_chars("target"));
    v.push(to_chars("dist"));
    v.push(to_chars("build"));
    v.push(to_chars("cache"));
    v.push(to_chars(".git"));
    v.push(to_chars("__pycache__"));
    v.push(to_chars("logs"));
    v.push(to_chars("tmp"));
    v.push(to_chars("temp"));
    v.push(to_chars("var"));
    v.push(to_chars("coverage"));
    v.push(to_chars("htmlcov"));
    v.push(to_chars(".svn"));
    v
}

/// Whether a single name is one of the pruned directory names.
pub fn is_pruned_dir_name(name: &str) -> (r: bool)
    ensures
        r == is_pruned_name(name@),
{
    let chars = to_chars(name);
    let names = pruned_name_list();
    let mut i: usize = 0;
    while i < names.len()
        invariant
            i <= names.len(),
            names@.len() == pruned_names().len(),
            forall|k: int| 0 <= k < names@.len() ==> (#[trigger] names@[k])@ == pruned_names()[k],
            chars@ == name@,
            forall|k: int| 0 <= k < i ==> (#[trigger] pruned_names()[k]) != chars@,
        decreases names.len() - i,
    {
        let whole = names[i].len() == chars.len() && occurs_at_exec(&chars, &names[i], 0);
        proof {
            if names@[i as int]@.len() == chars@.len() {
                assert(chars@.subrange(0, chars@.len() as int) =~= chars@);
            }
            assert(whole == (pruned_names()[i as int] == chars@));
        }
        if whole {
            return true;
        }
        i += 1;
    }
    false
}

/// Whether some component of the path is a pruned directory name.
pub fn is_ignored_dir(path: &str) -> (r: bool)
    ensures
        r == path_is_pruned(path@),
{
    let chars = to_chars(path);
    let names = pruned_name_list();
    let mut i: usize = 0;
    while i < names.len()
        invariant
            i <= names.len(),
            names@.len() == pruned_names().len(),
            forall|k: int| 0 <= k < names@.len() ==> (#[trigger] names@[k])@ == pruned_names()[k],
            chars@ == path@,
            forall|k: int| 0 <= k < i ==> !has_component(chars@, #[trigger] pruned_names()[k]),
        decreases names.len() - i,
    {
        if has_component_chars(&chars, &names[i]) {
            return true;
        }
        i += 1;
    }
    false
}

fn name_start_exec(path: &[char]) -> (r: usize)
    ensures
        r == name_start(path@),
{
    let mut i: usize = path.len();
    assert(path@.take(i as int) =~= path@);
    while i > 0 && path[i - 1] != '/'
        invariant
            i <= path.len(),
            name_start(path@) == name_start(path@.take(i as int)),
        decreases i,
    {
        proof {
            assert(path@.take(i as int).drop_last() =~= path@.take(i - 1));
        }
        i -= 1;
    }
    proof {
        assert(path@.take(path@.len() as int) =~= path@);
    }
    i
}

fn file_name_chars(path: &[char]) -> (r: Vec<char>)
    ensures
        r@ == file_name_of(path@),
{
    let start = name_start_exec(path);
    proof {
        lemma_name_start_bounds(path@);
    }
    slice_of(path, start, path.len())
}

/// The last component of the path.
pub fn file_name(path: &str) -> (r: String)
    ensures
        r@ == file_name_of(path@),
{
    let chars = to_chars(path);
    let name = file_name_chars(&chars);
    from_chars(&name)
}

fn extension_chars(path: &[char]) -> (r: Option<Vec<char>>)
    ensures
        match r {
            Some(e) => extension_of(path@) == Some(e@),
            None => extension_of(path@) is None,
        },
{
    let name = file_name_chars(path);
    let mut i: usize = name.len();
    assert(name@.take(i as int) =~= name@);
    while i > 0 && name[i - 1] != '.'
        invariant
            i <= name.len(),
            last_dot(name@) == last_dot(name@.take(i as int)),
        decreases i,
    {
        proof {
            assert(name@.take(i as int).drop_last() =~= name@.take(i - 1));
        }
        i -= 1;
    }
    proof {
        assert(name@.take(name@.len() as int) =~= name@);
        lemma_last_dot_bounds(name@);
        lemma_last_dot_bounds(name@.take(i as int));
    }
    if i <= 1 {
        None
    } else {
        Some(slice_of(&name, i, name.len()))
    }
}

/// The extension of the path's last component, if it has one.
pub fn extension(path: &str) -> (r: Option<String>)
    ensures
        match r {
            Some(e) => extension_of(path@) == Some(e@),
            None => extension_of(path@) is None,
        },
{
    let chars = to_chars(path);
    match extension_chars(&chars) {
        Some(e) => Some(from_chars(&e)),
        None => None,
    }
}

fn strip_root(path: &[char], root: &[char]) -> (r: Option<usize>)
    ensures
        r is Some == is_under(path@, root@),
        r is Some ==> r->0 <= path@.len() && relative_to(path@, root@) == path@.subrange(
            r->0 as int,
            path@.len() as int,
        ),
        r is None ==> relative_to(path@, root@) == path@,
{
    let n = root.len();
    if n == 0 {
        assert(path@.subrange(0, path@.len() as int) =~= path@);
        return Some(0);
    }
    let under = occurs_at_exec(path, root, 0);
    proof {
        if path@.len() == root@.len() {
            assert(path@.subrange(0, n as int) =~= path@);
        }
        assert(occurs_at(path@, root@ + seq!['/'], 0) ==> under && path@.len() > n && path@[n as int]
            == '/') by {
            if occurs_at(path@, root@ + seq!['/'], 0) {
                let whole = path@.subrange(0, n + 1);
                assert(whole == root@ + seq!['/']);
                assert(whole[n as int] == '/');
                assert(path@.subrange(0, n as int) =~= whole.subrange(0, n as int));
                assert(whole.subrange(0, n as int) =~= root@);
            }
        }
    }
    if !under {
        return None;
    }
    if path.len() == n {
        assert(path@.subrange(n as int, n as int) =~= Seq::<char>::empty());
        return Some(n);
    }
    if root[n - 1] == '/' {
        return Some(n);
    }
    if path[n] == '/' {
        assert(path@.subrange(0, n + 1) =~= root@ + seq!['/']);
        return Some(n + 1);
    }
    None
}

/// `path` relative to `root`; `path` itself where it does not lie under `root`.
pub fn relative_path(path: &str, root: &str) -> (r: String)
    ensures
        r@ == relative_to(path@, root@),
{
    let path_chars = to_chars(path);
    let root_chars = to_chars(root);
    match strip_root(&path_chars, &root_chars) {
        Some(from) => from_chars(&slice_of(&path_chars, from, path_chars.len())),
        None => {
            assert(path_chars@.subrange(0, path_chars@.len() as int) =~= path_chars@);
            from_chars(&path_chars)
        },
    }
}

/// Whether `path` is `root` or lies under it.
pub fn path_is_under(path: &str, root: &str) -> (r: bool)
    ensures
        r == is_under(path@, root@),
{
    let path_chars = to_chars(path);
    let root_chars = to_chars(root);
    strip_root(&path_chars, &root_chars).is_some()
}

/// `base` and `name` joined by one `/`.
pub fn join(base: &str, name: &str) -> (r: String)
    ensures
        r@ == joined(base@, name@),
{
    let base_chars = to_chars(base);
    let name_chars = to_chars(name);
    let n = base_chars.len();
    if n == 0 {
        from_chars(&name_chars)
    } else if base_chars[n - 1] == '/' {
        from_chars(&concat(&base_chars, &name_chars))
    } else {
        let mut sep: Vec<char> = Vec::new();
        sep.push('/');
        assert(sep@ =~= seq!['/']);
        from_chars(&concat(&concat(&base_chars, &sep), &name_chars))
    }
}

} // verus!
