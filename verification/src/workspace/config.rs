//! Persistent workspace configuration (open projects, pinned projects and
//! pinned documents) and the workspace state, with the updates the
//! application's commands make to them.
use vstd::prelude::*;
use crate::workspace::paths::{path_components, same_path};

verus! {

// =============================================================================
// Lists of paths
// =============================================================================

/// The character sequences of a list of strings.
pub open spec fn string_views(v: Seq<String>) -> Seq<Seq<char>> {
    Seq::new(v.len(), |i: int| v[i]@)
}

/// `list` with `p` removed where it first occurs, or with `p` added at the
/// end where it does not occur.
pub open spec fn toggled(list: Seq<Seq<char>>, p: Seq<char>) -> Seq<Seq<char>> {
    match list.index_of_first(p) {
        Some(i) => list.remove(i),
        None => list.push(p),
    }
}

/// `list` with `p` added at the end unless it is already there.
pub open spec fn with_entry(list: Seq<Seq<char>>, p: Seq<char>) -> Seq<Seq<char>> {
    if list.contains(p) {
        list
    } else {
        list.push(p)
    }
}

/// `list` without any occurrence of `p`, the other entries in order.
pub open spec fn without(list: Seq<Seq<char>>, p: Seq<char>) -> Seq<Seq<char>>
    decreases list.len(),
{
    if list.len() == 0 {
        list
    } else if list.last() == p {
        without(list.drop_last(), p)
    } else {
        without(list.drop_last(), p).push(list.last())
    }
}

/// `list` with the first occurrence of `old_entry` replaced by `new_entry`.
pub open spec fn replaced_first(list: Seq<Seq<char>>, old_entry: Seq<char>, new_entry: Seq<char>) -> Seq<Seq<char>> {
    match list.index_of_first(old_entry) {
        Some(i) => list.update(i, new_entry),
        None => list,
    }
}

/// Index of the first entry of `list` equal to `s`.
pub fn first_position(list: &Vec<String>, s: &str) -> (res: Option<usize>)
    ensures
        res matches Some(i) ==> i < list@.len() && string_views(list@).index_of_first(s@) == Some(i as int),
        res is None ==> string_views(list@).index_of_first(s@) is None,
{
    let target = s.to_owned();
    let ghost views = string_views(list@);
    proof {
        views.index_of_first_ensures(s@);
    }
    let mut i: usize = 0;
    while i < list.len()
        invariant
            i <= list@.len(),
            views == string_views(list@),
            target@ == s@,
            forall|j: int| 0 <= j < i ==> views[j] != s@,
            match views.index_of_first(s@) {
                Some(index) => 0 <= index < views.len() && views[index] == s@ && forall|j: int|
                    0 <= j < index ==> views[j] != s@,
                None => !views.contains(s@),
            },
        decreases list.len() - i,
    {
        if list[i] == target {
            assert(views[i as int] == s@);
            proof {
                let index = views.index_of_first(s@)->0;
                assert(views.contains(s@));
                if index < i {
                } else if index > i {
                }
            }
            return Some(i);
        }
        i += 1;
    }
    proof {
        if views.contains(s@) {
            let k = choose|k: int| 0 <= k < views.len() && views[k] == s@;
            assert(views[k] != s@);
        }
    }
    None
}

proof fn lemma_remove_views(v: Seq<String>, i: int)
    requires
        0 <= i < v.len(),
    ensures
        string_views(v.remove(i)) == string_views(v).remove(i),
{
    assert(string_views(v.remove(i)) =~= string_views(v).remove(i));
}

/// Removes the first occurrence of `s` from `list`, or adds `s` where it is absent.
pub fn toggle_entry(list: &mut Vec<String>, s: &str)
    ensures
        string_views(final(list)@) == toggled(string_views(old(list)@), s@),
{
    match first_position(list, s) {
        Some(i) => {
            proof {
                lemma_remove_views(list@, i as int);
            }
            list.remove(i);
        },
        None => {
            let t = s.to_owned();
            let ghost tv = t@;
            list.push(t);
            assert(string_views(list@) =~= string_views(old(list)@).push(tv));
        },
    }
}

/// Removes every occurrence of `s` from `list`, keeping the other entries in order.
pub fn remove_entries(list: &mut Vec<String>, s: &str)
    ensures
        string_views(final(list)@) == without(string_views(old(list)@), s@),
{
    let target = s.to_owned();
    let ghost views = string_views(list@);
    let n = list.len();
    let mut src: Vec<String> = Vec::new();
    std::mem::swap(&mut src, list);
    let mut rev: Vec<String> = Vec::new();
    while src.len() > 0
        invariant
            src@.len() + rev@.len() == n,
            views.len() == n,
            forall|k: int| 0 <= k < src@.len() ==> #[trigger] src@[k]@ == views[k],
            forall|k: int| 0 <= k < rev@.len() ==> #[trigger] rev@[k]@ == views[n - 1 - k],
        decreases src.len(),
    {
        let e = src.pop().unwrap();
        rev.push(e);
    }
    let mut i: usize = 0;
    while rev.len() > 0
        invariant
            i + rev@.len() == n,
            views.len() == n,
            target@ == s@,
            forall|k: int| 0 <= k < rev@.len() ==> #[trigger] rev@[k]@ == views[n - 1 - k],
            string_views(list@) == without(views.take(i as int), s@),
        decreases rev.len(),
    {
        let ghost last = rev@.len() - 1;
        assert(rev@[last]@ == views[n - 1 - last]);
        let e = rev.pop().unwrap();
        assert(views.take(i + 1).drop_last() == views.take(i as int));
        if e != target {
            let ghost ev = e@;
            let ghost before = string_views(list@);
            list.push(e);
            assert(string_views(list@) =~= before.push(ev));
        }
        i += 1;
    }
    assert(views.take(n as int) == views);
}

/// Replaces the first occurrence of `old_entry` in `list` by `new_entry`.
pub fn replace_first_entry(list: &mut Vec<String>, old_entry: &str, new_entry: &str)
    ensures
        string_views(final(list)@) == replaced_first(string_views(old(list)@), old_entry@, new_entry@),
{
    match first_position(list, old_entry) {
        Some(i) => {
            let t = new_entry.to_owned();
            let ghost tv = t@;
            list.set(i, t);
            assert(string_views(list@) =~= string_views(old(list)@).update(i as int, tv));
        },
        None => {},
    }
}

/// Does `list` hold `s`?
pub fn contains_entry(list: &Vec<String>, s: &str) -> (res: bool)
    ensures
        res == string_views(list@).contains(s@),
{
    let r = first_position(list, s);
    proof {
        string_views(list@).index_of_first_ensures(s@);
    }
    r.is_some()
}

// =============================================================================
// Configuration
// =============================================================================

/// Persistent application configuration: open project directories, pinned
/// project directories and pinned document files, as absolute paths.
pub struct WorkspaceConfig {
    pub open_projects: Vec<String>,
    pub pinned_projects: Vec<String>,
    pub pinned_documents: Vec<String>,
}

/// The configuration as a mathematical value.
#[verifier::ext_equal]
pub struct ConfigView {
    pub open_projects: Seq<Seq<char>>,
    pub pinned_projects: Seq<Seq<char>>,
    pub pinned_documents: Seq<Seq<char>>,
}

impl View for WorkspaceConfig {
    type V = ConfigView;

    open spec fn view(&self) -> ConfigView {
        ConfigView {
            open_projects: string_views(self.open_projects@),
            pinned_projects: string_views(self.pinned_projects@),
            pinned_documents: string_views(self.pinned_documents@),
        }
    }
}

/// The configuration with no project and nothing pinned.
pub open spec fn empty_config() -> ConfigView {
    ConfigView { open_projects: Seq::empty(), pinned_projects: Seq::empty(), pinned_documents: Seq::empty() }
}

impl Default for WorkspaceConfig {
    fn default() -> (res: Self)
        ensures
            res@ == empty_config(),
    {
        let res = WorkspaceConfig { open_projects: Vec::new(), pinned_projects: Vec::new(), pinned_documents: Vec::new() };
        assert(res@ =~= empty_config());
        res
    }
}

/// Toggles the pinned status of a document: unpins it where it is pinned,
/// else pins it after the documents already pinned.
pub fn toggle_pin_document(config: &mut WorkspaceConfig, file_path_str: &str)
    ensures
        final(config)@ == (ConfigView { pinned_documents: toggled(old(config)@.pinned_documents, file_path_str@), ..old(config)@ }),
{
    toggle_entry(&mut config.pinned_documents, file_path_str);
}

/// Toggles the pinned status of a project: unpins it where it is pinned,
/// else pins it after the projects already pinned.
pub fn toggle_pin_project(config: &mut WorkspaceConfig, proj_path_str: &str)
    ensures
        final(config)@ == (ConfigView { pinned_projects: toggled(old(config)@.pinned_projects, proj_path_str@), ..old(config)@ }),
{
    toggle_entry(&mut config.pinned_projects, proj_path_str);
}

/// Adds a project directory to the open projects unless it is open already;
/// tells whether it was added (and the configuration must be saved).
pub fn open_project(config: &mut WorkspaceConfig, path_str: &str) -> (added: bool)
    ensures
        added == !old(config)@.open_projects.contains(path_str@),
        final(config)@ == (ConfigView { open_projects: with_entry(old(config)@.open_projects, path_str@), ..old(config)@ }),
{
    if contains_entry(&config.open_projects, path_str) {
        false
    } else {
        let t = path_str.to_owned();
        let ghost tv = t@;
        config.open_projects.push(t);
        assert(string_views(config.open_projects@) =~= string_views(old(config).open_projects@).push(tv));
        true
    }
}

/// Removes a project from the open and the pinned projects.
pub fn remove_project(config: &mut WorkspaceConfig, proj_path_str: &str)
    ensures
        final(config)@ == (ConfigView {
            open_projects: without(old(config)@.open_projects, proj_path_str@),
            pinned_projects: without(old(config)@.pinned_projects, proj_path_str@),
            ..old(config)@
        }),
{
    remove_entries(&mut config.open_projects, proj_path_str);
    remove_entries(&mut config.pinned_projects, proj_path_str);
}

/// Records that a project directory was renamed: its first entry among the
/// open projects and among the pinned projects takes the new path.
pub fn rename_project_entries(config: &mut WorkspaceConfig, old_path: &str, new_path: &str)
    ensures
        final(config)@ == (ConfigView {
            open_projects: replaced_first(old(config)@.open_projects, old_path@, new_path@),
            pinned_projects: replaced_first(old(config)@.pinned_projects, old_path@, new_path@),
            ..old(config)@
        }),
{
    replace_first_entry(&mut config.open_projects, old_path, new_path);
    replace_first_entry(&mut config.pinned_projects, old_path, new_path);
}

// =============================================================================
// Workspace state
// =============================================================================

/// Workspace state: the open document, the sidebar search query and the configuration.
pub struct WorkspaceManager {
    /// Path of the document open in the editor, if any.
    pub active_file_path: Option<String>,
    /// Active search filter query.
    pub search_query: String,
    /// Saved workspace configuration.
    pub config: WorkspaceConfig,
}

impl WorkspaceManager {
    /// Workspace state at start-up, from the configuration loaded from disk
    /// (the default configuration where none could be loaded).
    pub fn new(loaded: Option<WorkspaceConfig>) -> (res: Self)
        ensures
            res.active_file_path is None,
            res.search_query@ == Seq::<char>::empty(),
            loaded matches Some(c) ==> res.config@ == c@,
            loaded is None ==> res.config@ == empty_config(),
    {
        let config = match loaded {
            Some(c) => c,
            None => WorkspaceConfig::default(),
        };
        WorkspaceManager { active_file_path: None, search_query: String::new(), config }
    }

    /// Records that a document file moved from `old_path` to `new_path`: the
    /// open document follows it (where it is the same path, compared by
    /// components), and so does its pin (an entry equal to `old_path`). Tells
    /// whether the configuration changed (and must be saved).
    pub fn rename_document(&mut self, old_path: &str, new_path: &str) -> (changed: bool)
        ensures
            changed == old(self)@.config.pinned_documents.contains(old_path@),
            final(self)@.config == (ConfigView {
                pinned_documents: replaced_first(old(self)@.config.pinned_documents, old_path@, new_path@),
                ..old(self)@.config
            }),
            final(self)@.search_query == old(self)@.search_query,
            final(self)@.active_file_path == (match old(self)@.active_file_path {
                Some(p) => if path_components(p) == path_components(old_path@) { Some(new_path@) } else { Some(p) },
                None => None::<Seq<char>>,
            }),
    {
        let is_active = match &self.active_file_path {
            Some(p) => same_path(p.as_str(), old_path),
            None => false,
        };
        if is_active {
            self.active_file_path = Some(new_path.to_owned());
        }
        let changed = contains_entry(&self.config.pinned_documents, old_path);
        replace_first_entry(&mut self.config.pinned_documents, old_path, new_path);
        changed
    }

    /// Records that a document file was deleted: where it was the open
    /// document (the same path, compared by components), no document is open
    /// any more. Tells whether it was open.
    pub fn forget_document(&mut self, file_path_str: &str) -> (was_active: bool)
        ensures
            was_active == (old(self)@.active_file_path matches Some(p) && path_components(p) == path_components(file_path_str@)),
            final(self)@.active_file_path == if was_active {
                None
            } else {
                old(self)@.active_file_path
            },
            final(self)@.config == old(self)@.config,
            final(self)@.search_query == old(self)@.search_query,
    {
        let is_active = match &self.active_file_path {
            Some(p) => same_path(p.as_str(), file_path_str),
            None => false,
        };
        if is_active {
            self.active_file_path = None;
        }
        is_active
    }
}

/// The workspace state as a mathematical value.
#[verifier::ext_equal]
pub struct ManagerView {
    pub active_file_path: Option<Seq<char>>,
    pub search_query: Seq<char>,
    pub config: ConfigView,
}

impl View for WorkspaceManager {
    type V = ManagerView;

    open spec fn view(&self) -> ManagerView {
        ManagerView {
            active_file_path: match self.active_file_path {
                Some(p) => Some(p@),
                None => None,
            },
            search_query: self.search_query@,
            config: self.config@,
        }
    }
}

// =============================================================================
// Laws
// =============================================================================

/// Pinning an unpinned item and then toggling it again restores the list.
pub proof fn lemma_toggle_twice_restores(list: Seq<Seq<char>>, p: Seq<char>)
    requires
        !list.contains(p),
    ensures
        toggled(toggled(list, p), p) == list,
{
    list.index_of_first_ensures(p);
    let l2 = list.push(p);
    assert(l2[list.len() as int] == p);
    l2.index_of_first_ensures(p);
    let i = l2.index_of_first(p)->0;
    if i < list.len() {
        assert(l2[i] == list[i]);
    }
    assert(i == list.len());
    assert(l2.remove(i) =~= list);
}

/// Toggling flips whether an item is in a list without duplicates, and keeps
/// the list free of duplicates.
pub proof fn lemma_toggle_flips(list: Seq<Seq<char>>, p: Seq<char>)
    requires
        list.no_duplicates(),
    ensures
        toggled(list, p).contains(p) == !list.contains(p),
        toggled(list, p).no_duplicates(),
{
    list.index_of_first_ensures(p);
    match list.index_of_first(p) {
        Some(i) => {
            let r = list.remove(i);
            if r.contains(p) {
                let k = choose|k: int| 0 <= k < r.len() && r[k] == p;
                if k < i {
                    assert(list[k] == p);
                } else {
                    assert(list[k + 1] == p);
                }
            }
            assert forall|a: int, b: int| 0 <= a < r.len() && 0 <= b < r.len() && a != b implies r[a] != r[b] by {
                let a2 = if a < i { a } else { a + 1 };
                let b2 = if b < i { b } else { b + 1 };
                assert(r[a] == list[a2]);
                assert(r[b] == list[b2]);
            }
        },
        None => {
            let r = list.push(p);
            assert(r[list.len() as int] == p);
            assert forall|a: int, b: int| 0 <= a < r.len() && 0 <= b < r.len() && a != b implies r[a] != r[b] by {
                if a < list.len() && b < list.len() {
                } else if a < list.len() {
                    assert(r[a] == list[a]);
                } else if b < list.len() {
                    assert(r[b] == list[b]);
                }
            }
        },
    }
}

/// Opening a project that is already open changes nothing; after opening, it is open.
pub proof fn lemma_open_project_idempotent(list: Seq<Seq<char>>, p: Seq<char>)
    ensures
        with_entry(list, p).contains(p),
        with_entry(with_entry(list, p), p) == with_entry(list, p),
{
    if !list.contains(p) {
        assert(list.push(p)[list.len() as int] == p);
    }
}

/// After removing a project, it is no longer in the list; every other entry
/// stays in it, and a list without the project is left as it is.
pub proof fn lemma_without(list: Seq<Seq<char>>, p: Seq<char>)
    ensures
        !without(list, p).contains(p),
        forall|x: Seq<char>| x != p ==> (without(list, p).contains(x) <==> list.contains(x)),
        without(list, p).len() <= list.len(),
        !list.contains(p) ==> without(list, p) == list,
    decreases list.len(),
{
    if list.len() > 0 {
        let rest = list.drop_last();
        let last = list.last();
        lemma_without(rest, p);
        let w = without(rest, p);
        assert(list == rest.push(last));
        assert forall|x: Seq<char>| x != p implies (without(list, p).contains(x) <==> list.contains(x)) by {
            lemma_push_contains(rest, last, x);
            if last == p {
                assert(without(list, p) == w);
            } else {
                assert(without(list, p) == w.push(last));
                lemma_push_contains(w, last, x);
            }
        }
        lemma_push_contains(w, last, p);
        lemma_push_contains(rest, last, p);
    }
}

proof fn lemma_push_contains(s: Seq<Seq<char>>, a: Seq<char>, x: Seq<char>)
    ensures
        s.push(a).contains(x) <==> (s.contains(x) || a == x),
{
    let t = s.push(a);
    if s.contains(x) {
        let k = choose|k: int| 0 <= k < s.len() && s[k] == x;
        assert(t[k] == x);
    }
    if a == x {
        assert(t[s.len() as int] == x);
    }
    if t.contains(x) {
        let k = choose|k: int| 0 <= k < t.len() && t[k] == x;
        if k < s.len() {
            assert(s[k] == x);
        }
    }
}

} // verus!
