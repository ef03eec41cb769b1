//! Sidebar document lists: Markdown files of a directory listing, ordered with
//! pinned items first and then by case-insensitive title, filtered by the
//! search query; and the entries of open projects.
use vstd::prelude::*;
use crate::text::{chars_of, contains_chars, contains_seq, lowercase, string_from_chars, to_lowercase};
use crate::workspace::config::{contains_entry, string_views};

verus! {

// =============================================================================
// File names
// =============================================================================

/// Index of the last `.` in `name`, if any.
pub open spec fn last_dot(name: Seq<char>) -> Option<int>
    decreases name.len(),
{
    if name.len() == 0 {
        None
    } else if name.last() == '.' {
        Some(name.len() - 1)
    } else {
        last_dot(name.drop_last())
    }
}

/// Extension of a file name, as `Path::extension` gives it: the part after
/// the last `.`, except for `..` and for names whose only `.` comes first.
pub open spec fn file_extension(name: Seq<char>) -> Option<Seq<char>> {
    if name == ".."@ {
        None
    } else {
        match last_dot(name) {
            Some(k) => if k == 0 {
                None
            } else {
                Some(name.skip(k + 1))
            },
            None => None,
        }
    }
}

/// Stem of a file name, as `Path::file_stem` gives it: the name without its extension.
pub open spec fn file_stem(name: Seq<char>) -> Seq<char> {
    match file_extension(name) {
        Some(e) => name.take(name.len() - e.len() - 1),
        None => name,
    }
}

/// Is a file name that of a Markdown document (extension `md` in any letter case)?
pub open spec fn is_markdown_name(name: Seq<char>) -> bool {
    match file_extension(name) {
        Some(e) => e.len() == 2 && (e[0] == 'm' || e[0] == 'M') && (e[1] == 'd' || e[1] == 'D'),
        None => false,
    }
}

fn last_dot_of(name: &Vec<char>) -> (res: Option<usize>)
    ensures
        res matches Some(k) ==> last_dot(name@) == Some(k as int),
        res is None ==> last_dot(name@) is None,
{
    let mut i: usize = name.len();
    assert(name@.take(i as int) == name@);
    while i > 0
        invariant
            i <= name@.len(),
            last_dot(name@) == last_dot(name@.take(i as int)),
        decreases i,
    {
        assert(name@.take(i as int).last() == name@[i - 1]);
        if name[i - 1] == '.' {
            return Some(i - 1);
        }
        assert(name@.take(i as int).drop_last() == name@.take(i - 1));
        i -= 1;
    }
    None
}

proof fn lemma_last_dot_range(name: Seq<char>)
    ensures
        last_dot(name) matches Some(k) ==> 0 <= k < name.len() && name[k] == '.',
    decreases name.len(),
{
    if name.len() > 0 && name.last() != '.' {
        lemma_last_dot_range(name.drop_last());
    }
}

/// Extension and stem of a file name, as `Path::extension` and `Path::file_stem` give them.
pub fn split_file_name(name: &str) -> (res: (Option<Vec<char>>, Vec<char>))
    ensures
        res.0 matches Some(e) ==> file_extension(name@) == Some(e@),
        res.0 is None ==> file_extension(name@) is None,
        res.1@ == file_stem(name@),
{
    let v = chars_of(name);
    proof {
        lemma_last_dot_range(v@);
        reveal_strlit("..");
    }
    let is_dotdot = v.len() == 2 && v[0] == '.' && v[1] == '.';
    assert(is_dotdot == (v@ == ".."@)) by {
        if v@ == ".."@ {
            assert(v@[0] == '.' && v@[1] == '.');
        }
        if is_dotdot {
            assert(v@ =~= ".."@);
        }
    }
    if is_dotdot {
        return (None, v);
    }
    match last_dot_of(&v) {
        Some(k) => {
            if k == 0 {
                (None, v)
            } else {
                let mut ext: Vec<char> = Vec::new();
                let mut i: usize = k + 1;
                while i < v.len()
                    invariant
                        k + 1 <= i <= v@.len(),
                        ext@ == v@.subrange(k + 1, i as int),
                    decreases v.len() - i,
                {
                    ext.push(v[i]);
                    assert(v@.subrange(k + 1, i + 1) == v@.subrange(k + 1, i as int).push(v@[i as int]));
                    i += 1;
                }
                let mut stem: Vec<char> = Vec::new();
                let mut j: usize = 0;
                while j < k
                    invariant
                        j <= k < v@.len(),
                        stem@ == v@.take(j as int),
                    decreases k - j,
                {
                    stem.push(v[j]);
                    assert(v@.take(j + 1) == v@.take(j as int).push(v@[j as int]));
                    j += 1;
                }
                assert(ext@ == v@.skip(k + 1));
                (Some(ext), stem)
            }
        },
        None => (None, v),
    }
}

/// Is a file name that of a Markdown document (extension `md`, any letter case)?
pub fn is_markdown_file_name(name: &str) -> (res: bool)
    ensures
        res == is_markdown_name(name@),
{
    let (ext, _) = split_file_name(name);
    match ext {
        Some(e) => e.len() == 2 && (e[0] == 'm' || e[0] == 'M') && (e[1] == 'd' || e[1] == 'D'),
        None => false,
    }
}

// =============================================================================
// Documents
// =============================================================================

/// An entry of a directory listing: its path, its file name (lossily
/// converted where it is not Unicode), and whether it is a regular file.
pub struct FileEntry {
    pub path: String,
    pub file_name: String,
    pub name_is_unicode: bool,
    pub is_file: bool,
}

/// A document in the sidebar: its path, its title and its pinned status.
pub struct SidebarConversation {
    pub id: String,
    pub title: String,
    pub is_pinned: bool,
}

/// A sidebar document as a mathematical value.
pub struct DocumentView {
    pub id: Seq<char>,
    pub title: Seq<char>,
    pub is_pinned: bool,
}

impl View for SidebarConversation {
    type V = DocumentView;

    open spec fn view(&self) -> DocumentView {
        DocumentView { id: self.id@, title: self.title@, is_pinned: self.is_pinned }
    }
}

/// The views of a sequence of sidebar documents.
pub open spec fn document_views(v: Seq<SidebarConversation>) -> Seq<DocumentView> {
    Seq::new(v.len(), |i: int| v[i]@)
}

/// Is a directory entry a Markdown document?
pub open spec fn is_document_entry(e: FileEntry) -> bool {
    e.is_file && is_markdown_name(e.file_name@)
}

/// The sidebar document for a directory entry: titled by its file stem
/// (`Untitled` where the name is not Unicode), pinned where its path is.
pub open spec fn document_of(e: FileEntry, pinned: Seq<Seq<char>>) -> DocumentView {
    DocumentView {
        id: e.path@,
        title: if e.name_is_unicode {
            file_stem(e.file_name@)
        } else {
            "Untitled"@
        },
        is_pinned: pinned.contains(e.path@),
    }
}

/// The documents of the Markdown entries of a listing, in listing order.
pub open spec fn listed_documents(entries: Seq<FileEntry>, pinned: Seq<Seq<char>>) -> Seq<DocumentView>
    decreases entries.len(),
{
    if entries.len() == 0 {
        Seq::empty()
    } else if is_document_entry(entries.last()) {
        listed_documents(entries.drop_last(), pinned).push(document_of(entries.last(), pinned))
    } else {
        listed_documents(entries.drop_last(), pinned)
    }
}

/// Sort key of a sidebar item: pinned status, then lowercase title.
pub open spec fn doc_key(d: DocumentView) -> (bool, Seq<char>) {
    (d.is_pinned, lowercase(d.title))
}

// =============================================================================
// Ordering
// =============================================================================

/// Is `a` before `b` in the order of code points (the byte order of UTF-8)?
pub open spec fn lex_less(a: Seq<char>, b: Seq<char>) -> bool
    decreases a.len(),
{
    if a.len() == 0 {
        b.len() > 0
    } else if b.len() == 0 {
        false
    } else if a[0] != b[0] {
        (a[0] as u32) < (b[0] as u32)
    } else {
        lex_less(a.drop_first(), b.drop_first())
    }
}

/// Does key `a` come strictly before key `b`: pinned items first, then by
/// lowercase name?
pub open spec fn key_before(a: (bool, Seq<char>), b: (bool, Seq<char>)) -> bool {
    (a.0 && !b.0) || (a.0 == b.0 && lex_less(a.1, b.1))
}

/// `s` with `x` inserted before the first element that `x` comes strictly before.
pub open spec fn insert_by_key<T>(s: Seq<(T, (bool, Seq<char>))>, x: (T, (bool, Seq<char>))) -> Seq<(T, (bool, Seq<char>))>
    decreases s.len(),
{
    if s.len() == 0 {
        seq![x]
    } else if key_before(x.1, s[0].1) {
        seq![x] + s
    } else {
        seq![s[0]] + insert_by_key(s.drop_first(), x)
    }
}

/// Stable sort by key (insertion of each element in turn).
pub open spec fn sort_by_key<T>(s: Seq<(T, (bool, Seq<char>))>) -> Seq<(T, (bool, Seq<char>))>
    decreases s.len(),
{
    if s.len() == 0 {
        s
    } else {
        insert_by_key(sort_by_key(s.drop_last()), s.last())
    }
}

/// The sidebar documents, pinned first, then in order of their lowercase titles;
/// documents with the same key keep their listing order.
pub open spec fn sorted_documents(docs: Seq<DocumentView>) -> Seq<DocumentView> {
    sort_by_key(docs.map_values(|d: DocumentView| (d, doc_key(d)))).map_values(|p: (DocumentView, (bool, Seq<char>))| p.0)
}

fn lex_less_chars(a: &Vec<char>, b: &Vec<char>) -> (res: bool)
    ensures
        res == lex_less(a@, b@),
{
    let mut i: usize = 0;
    assert(a@.skip(0) == a@);
    assert(b@.skip(0) == b@);
    while i < a.len() && i < b.len() && a[i] == b[i]
        invariant
            i <= a@.len(),
            i <= b@.len(),
            lex_less(a@, b@) == lex_less(a@.skip(i as int), b@.skip(i as int)),
        decreases a.len() - i,
    {
        assert(a@.skip(i as int).drop_first() == a@.skip(i + 1));
        assert(b@.skip(i as int).drop_first() == b@.skip(i + 1));
        i += 1;
    }
    if i == a.len() {
        i < b.len()
    } else if i == b.len() {
        false
    } else {
        assert(a@.skip(i as int)[0] == a@[i as int]);
        assert(b@.skip(i as int)[0] == b@[i as int]);
        (a[i] as u32) < (b[i] as u32)
    }
}

/// A sort key computed for execution.
pub struct SortKey {
    pub pinned: bool,
    pub name: Vec<char>,
}

fn key_before_exec(a: &SortKey, b: &SortKey) -> (res: bool)
    ensures
        res == key_before((a.pinned, a.name@), (b.pinned, b.name@)),
{
    (a.pinned && !b.pinned) || (a.pinned == b.pinned && lex_less_chars(&a.name, &b.name))
}

/// The pairs of items and key views.
pub open spec fn keyed<T>(items: Seq<T>, keys: Seq<SortKey>) -> Seq<(T, (bool, Seq<char>))> {
    Seq::new(items.len(), |i: int| (items[i], (keys[i].pinned, keys[i].name@)))
}

proof fn lemma_insert_by_key_at<T>(s: Seq<(T, (bool, Seq<char>))>, x: (T, (bool, Seq<char>)), k: int)
    requires
        0 <= k <= s.len(),
        forall|j: int| 0 <= j < k ==> !key_before(x.1, #[trigger] s[j].1),
        k < s.len() ==> key_before(x.1, s[k].1),
    ensures
        insert_by_key(s, x) == s.insert(k, x),
    decreases s.len(),
{
    if s.len() == 0 {
        assert(s.insert(k, x) =~= seq![x]);
    } else if k == 0 {
        assert(s.insert(0, x) =~= seq![x] + s);
    } else {
        let t = s.drop_first();
        assert forall|j: int| 0 <= j < k - 1 implies !key_before(x.1, #[trigger] t[j].1) by {
            assert(t[j] == s[j + 1]);
        }
        if k - 1 < t.len() {
            assert(t[k - 1] == s[k]);
        }
        lemma_insert_by_key_at(t, x, k - 1);
        assert(seq![s[0]] + t.insert(k - 1, x) =~= s.insert(k, x));
    }
}

/// Sorts items by their keys: pinned first, then by name; stable.
pub fn sort_items_by_key<T>(items: Vec<T>, keys: Vec<SortKey>) -> (res: Vec<T>)
    requires
        items@.len() == keys@.len(),
    ensures
        res@ == sort_by_key(keyed(items@, keys@)).map_values(|p: (T, (bool, Seq<char>))| p.0),
{
    let ghost input = keyed(items@, keys@);
    let n = items.len();
    let mut items_rev: Vec<T> = Vec::new();
    let mut keys_rev: Vec<SortKey> = Vec::new();
    let mut items_src = items;
    let mut keys_src = keys;
    while items_src.len() > 0
        invariant
            items_src@.len() == keys_src@.len(),
            items_rev@.len() == keys_rev@.len(),
            items_src@.len() + items_rev@.len() == n,
            input.len() == n,
            forall|k: int| 0 <= k < items_src@.len() ==> (#[trigger] items_src@[k], (keys_src@[k].pinned, keys_src@[k].name@)) == input[k],
            forall|k: int| 0 <= k < items_rev@.len() ==> (#[trigger] items_rev@[k], (keys_rev@[k].pinned, keys_rev@[k].name@)) == input[n - 1 - k],
        decreases items_src.len(),
    {
        let it = items_src.pop().unwrap();
        let ky = keys_src.pop().unwrap();
        items_rev.push(it);
        keys_rev.push(ky);
    }
    let mut out_items: Vec<T> = Vec::new();
    let mut out_keys: Vec<SortKey> = Vec::new();
    let mut i: usize = 0;
    assert(sort_by_key(input.take(0)) =~= keyed(out_items@, out_keys@));
    while items_rev.len() > 0
        invariant
            items_rev@.len() == keys_rev@.len(),
            out_items@.len() == out_keys@.len(),
            i + items_rev@.len() == n,
            input.len() == n,
            forall|k: int| 0 <= k < items_rev@.len() ==> (#[trigger] items_rev@[k], (keys_rev@[k].pinned, keys_rev@[k].name@)) == input[n - 1 - k],
            keyed(out_items@, out_keys@) == sort_by_key(input.take(i as int)),
        decreases items_rev.len(),
    {
        let ghost last = items_rev@.len() - 1;
        assert((items_rev@[last], (keys_rev@[last].pinned, keys_rev@[last].name@)) == input[n - 1 - last]);
        let it = items_rev.pop().unwrap();
        let ky = keys_rev.pop().unwrap();
        let ghost x = (it, (ky.pinned, ky.name@));
        assert(x == input[i as int]);
        let ghost before = keyed(out_items@, out_keys@);
        let mut k: usize = 0;
        while k < out_keys.len() && !key_before_exec(&ky, &out_keys[k])
            invariant
                k <= out_keys@.len(),
                out_items@.len() == out_keys@.len(),
                before == keyed(out_items@, out_keys@),
                x == (it, (ky.pinned, ky.name@)),
                forall|j: int| 0 <= j < k ==> !key_before(x.1, #[trigger] before[j].1),
            decreases out_keys.len() - k,
        {
            k += 1;
        }
        proof {
            lemma_insert_by_key_at(before, x, k as int);
        }
        out_items.insert(k, it);
        out_keys.insert(k, ky);
        assert(keyed(out_items@, out_keys@) =~= before.insert(k as int, x));
        assert(input.take(i + 1).drop_last() == input.take(i as int));
        assert(input.take(i + 1).last() == x);
        i += 1;
    }
    assert(input.take(n as int) == input);
    assert(out_items@ =~= keyed(out_items@, out_keys@).map_values(|p: (T, (bool, Seq<char>))| p.0));
    out_items
}

fn lowercase_chars(s: &str) -> (res: Vec<char>)
    ensures
        res@ == lowercase(s@),
{
    let l = to_lowercase(s);
    chars_of(l.as_str())
}

/// Orders sidebar documents: pinned first, then by lowercase title; stable.
pub fn sort_documents(docs: Vec<SidebarConversation>) -> (res: Vec<SidebarConversation>)
    ensures
        document_views(res@) == sorted_documents(document_views(docs@)),
{
    let mut keys: Vec<SortKey> = Vec::new();
    let mut i: usize = 0;
    while i < docs.len()
        invariant
            i <= docs@.len(),
            keys@.len() == i,
            forall|k: int| 0 <= k < i ==> (#[trigger] keys@[k].pinned, keys@[k].name@) == doc_key(docs@[k]@),
        decreases docs.len() - i,
    {
        let name = lowercase_chars(docs[i].title.as_str());
        keys.push(SortKey { pinned: docs[i].is_pinned, name });
        i += 1;
    }
    let ghost dv = document_views(docs@);
    let ghost pairs = keyed(docs@, keys@);
    let res = sort_items_by_key(docs, keys);
    proof {
        lemma_sort_map_views(pairs);
        assert(dv.map_values(|d: DocumentView| (d, doc_key(d))) =~= view_pairs(pairs));
        assert(document_views(res@) =~= sort_by_key(pairs).map_values(|p: (SidebarConversation, (bool, Seq<char>))| p.0@));
    }
    res
}

/// The pairs of item views and keys.
pub open spec fn view_pairs<T: View>(s: Seq<(T, (bool, Seq<char>))>) -> Seq<(T::V, (bool, Seq<char>))> {
    s.map_values(|p: (T, (bool, Seq<char>))| (p.0@, p.1))
}

proof fn lemma_insert_views<T: View>(s: Seq<(T, (bool, Seq<char>))>, x: (T, (bool, Seq<char>)))
    ensures
        view_pairs(insert_by_key(s, x)) == insert_by_key(view_pairs(s), (x.0@, x.1)),
    decreases s.len(),
{
    if s.len() == 0 {
        assert(view_pairs(seq![x]) =~= seq![(x.0@, x.1)]);
    } else if key_before(x.1, s[0].1) {
        assert(view_pairs(seq![x] + s) =~= seq![(x.0@, x.1)] + view_pairs(s));
    } else {
        lemma_insert_views(s.drop_first(), x);
        assert(view_pairs(s).drop_first() =~= view_pairs(s.drop_first()));
        assert(view_pairs(seq![s[0]] + insert_by_key(s.drop_first(), x)) =~= seq![(s[0].0@, s[0].1)] + view_pairs(insert_by_key(s.drop_first(), x)));
    }
}

proof fn lemma_sort_views<T: View>(s: Seq<(T, (bool, Seq<char>))>)
    ensures
        view_pairs(sort_by_key(s)) == sort_by_key(view_pairs(s)),
    decreases s.len(),
{
    if s.len() > 0 {
        lemma_sort_views(s.drop_last());
        lemma_insert_views(sort_by_key(s.drop_last()), s.last());
        assert(view_pairs(s).drop_last() =~= view_pairs(s.drop_last()));
    }
}

/// Sorting items and taking views commute.
proof fn lemma_sort_map_views<T: View>(pairs: Seq<(T, (bool, Seq<char>))>)
    ensures
        sort_by_key(pairs).map_values(|p: (T, (bool, Seq<char>))| p.0@)
            == sort_by_key(view_pairs(pairs)).map_values(|p: (T::V, (bool, Seq<char>))| p.0),
{
    lemma_sort_views(pairs);
    let sp = sort_by_key(pairs);
    assert(sp.map_values(|p: (T, (bool, Seq<char>))| p.0@) =~= view_pairs(sp).map_values(|p: (T::V, (bool, Seq<char>))| p.0));
}

// =============================================================================
// Listing, search and projects
// =============================================================================

/// Lists the Markdown documents of a directory listing for the sidebar:
/// pinned documents first, then in order of their lowercase titles.
pub fn scan_markdown_files(entries: &Vec<FileEntry>, pinned_docs: &Vec<String>) -> (res: Vec<SidebarConversation>)
    ensures
        document_views(res@) == sorted_documents(listed_documents(entries@, string_views(pinned_docs@))),
{
    let ghost pv = string_views(pinned_docs@);
    let mut items: Vec<SidebarConversation> = Vec::new();
    let mut i: usize = 0;
    while i < entries.len()
        invariant
            i <= entries@.len(),
            pv == string_views(pinned_docs@),
            document_views(items@) == listed_documents(entries@.take(i as int), pv),
        decreases entries.len() - i,
    {
        assert(entries@.take(i + 1).drop_last() == entries@.take(i as int));
        assert(entries@.take(i + 1).last() == entries@[i as int]);
        let e = &entries[i];
        if e.is_file && is_markdown_file_name(e.file_name.as_str()) {
            let title = if e.name_is_unicode {
                let (_, stem) = split_file_name(e.file_name.as_str());
                string_from_chars(&stem)
            } else {
                "Untitled".to_owned()
            };
            let is_pinned = contains_entry(pinned_docs, e.path.as_str());
            let d = SidebarConversation { id: e.path.clone(), title, is_pinned };
            let ghost before = document_views(items@);
            let ghost dv = d@;
            assert(dv == document_of(entries@[i as int], pv));
            items.push(d);
            assert(document_views(items@) =~= before.push(dv));
        }
        i += 1;
    }
    assert(entries@.take(entries.len() as int) == entries@);
    sort_documents(items)
}

/// Does a document's lowercase title hold the (lowercase) query?
pub open spec fn matches_query(d: DocumentView, q: Seq<char>) -> bool {
    contains_seq(lowercase(d.title), q)
}

/// The documents whose lowercase title holds `q`, in order.
pub open spec fn documents_matching(docs: Seq<DocumentView>, q: Seq<char>) -> Seq<DocumentView>
    decreases docs.len(),
{
    if docs.len() == 0 {
        docs
    } else if matches_query(docs.last(), q) {
        documents_matching(docs.drop_last(), q).push(docs.last())
    } else {
        documents_matching(docs.drop_last(), q)
    }
}

/// The documents the search query `query` keeps: all of them when the
/// lowercase query is empty, else those whose lowercase title holds it.
pub open spec fn searched_documents(docs: Seq<DocumentView>, query: Seq<char>) -> Seq<DocumentView> {
    if lowercase(query).len() == 0 {
        docs
    } else {
        documents_matching(docs, lowercase(query))
    }
}

/// Applies the sidebar search query to a list of documents.
pub fn search_documents(docs: Vec<SidebarConversation>, search_query: &str) -> (res: Vec<SidebarConversation>)
    ensures
        document_views(res@) == searched_documents(document_views(docs@), search_query@),
{
    let q = lowercase_chars(search_query);
    if q.len() == 0 {
        return docs;
    }
    let ghost views = document_views(docs@);
    let n = docs.len();
    let mut src = docs;
    let mut rev: Vec<SidebarConversation> = Vec::new();
    while src.len() > 0
        invariant
            src@.len() + rev@.len() == n,
            views.len() == n,
            forall|k: int| 0 <= k < src@.len() ==> #[trigger] src@[k]@ == views[k],
            forall|k: int| 0 <= k < rev@.len() ==> #[trigger] rev@[k]@ == views[n - 1 - k],
        decreases src.len(),
    {
        let e = src.pop().unwrap();
        rev.push(e);
    }
    let mut res: Vec<SidebarConversation> = Vec::new();
    let mut i: usize = 0;
    while rev.len() > 0
        invariant
            i + rev@.len() == n,
            views.len() == n,
            q@ == lowercase(search_query@),
            forall|k: int| 0 <= k < rev@.len() ==> #[trigger] rev@[k]@ == views[n - 1 - k],
            document_views(res@) == documents_matching(views.take(i as int), q@),
        decreases rev.len(),
    {
        let ghost last = rev@.len() - 1;
        assert(rev@[last]@ == views[n - 1 - last]);
        let d = rev.pop().unwrap();
        assert(views.take(i + 1).drop_last() == views.take(i as int));
        assert(views.take(i + 1).last() == views[i as int]);
        let title = lowercase_chars(d.title.as_str());
        if contains_chars(&title, &q) {
            let ghost before = document_views(res@);
            let ghost dv = d@;
            res.push(d);
            assert(document_views(res@) =~= before.push(dv));
        }
        i += 1;
    }
    assert(views.take(n as int) == views);
    res
}

/// An open project's directory: its path, its last component where that is
/// Unicode, and the listing of its entries.
pub struct ProjectListing {
    pub path: String,
    pub file_name: Option<String>,
    pub entries: Vec<FileEntry>,
}

/// An open project in the sidebar, with its documents.
pub struct SidebarProject {
    pub name: String,
    pub workspace: String,
    pub is_pinned: bool,
    pub conversations: Vec<SidebarConversation>,
}

/// A sidebar project as a mathematical value.
pub struct ProjectView {
    pub name: Seq<char>,
    pub workspace: Seq<char>,
    pub is_pinned: bool,
    pub conversations: Seq<DocumentView>,
}

impl View for SidebarProject {
    type V = ProjectView;

    open spec fn view(&self) -> ProjectView {
        ProjectView {
            name: self.name@,
            workspace: self.workspace@,
            is_pinned: self.is_pinned,
            conversations: document_views(self.conversations@),
        }
    }
}

/// The views of a sequence of sidebar projects.
pub open spec fn project_views(v: Seq<SidebarProject>) -> Seq<ProjectView> {
    Seq::new(v.len(), |i: int| v[i]@)
}

/// The sidebar entry of an open project: named by its last path component
/// (its path where it has none), pinned where its path is, with its searched documents.
pub open spec fn project_of(l: ProjectListing, pinned_projects: Seq<Seq<char>>, pinned_docs: Seq<Seq<char>>, query: Seq<char>) -> ProjectView {
    ProjectView {
        name: match l.file_name {
            Some(n) => n@,
            None => l.path@,
        },
        workspace: l.path@,
        is_pinned: pinned_projects.contains(l.path@),
        conversations: searched_documents(sorted_documents(listed_documents(l.entries@, pinned_docs)), query),
    }
}

/// Does the search query keep a project: with an empty query, or where the
/// project's lowercase name holds it, or where any of its documents matched?
pub open spec fn project_shown(p: ProjectView, query: Seq<char>) -> bool {
    lowercase(query).len() == 0 || contains_seq(lowercase(p.name), lowercase(query)) || p.conversations.len() > 0
}

/// The projects the search query keeps, in order.
pub open spec fn shown_projects(ps: Seq<ProjectView>, query: Seq<char>) -> Seq<ProjectView>
    decreases ps.len(),
{
    if ps.len() == 0 {
        ps
    } else if project_shown(ps.last(), query) {
        shown_projects(ps.drop_last(), query).push(ps.last())
    } else {
        shown_projects(ps.drop_last(), query)
    }
}

/// Sort key of a sidebar project: pinned status, then lowercase name.
pub open spec fn project_key(p: ProjectView) -> (bool, Seq<char>) {
    (p.is_pinned, lowercase(p.name))
}

/// Sidebar projects, pinned first, then in order of their lowercase names; stable.
pub open spec fn sorted_projects(ps: Seq<ProjectView>) -> Seq<ProjectView> {
    sort_by_key(ps.map_values(|p: ProjectView| (p, project_key(p)))).map_values(|p: (ProjectView, (bool, Seq<char>))| p.0)
}

/// The sidebar's project list: an entry for each open project, those the
/// search query keeps, pinned first and then by name.
pub open spec fn sidebar_project_list(listings: Seq<ProjectListing>, pinned_projects: Seq<Seq<char>>, pinned_docs: Seq<Seq<char>>, query: Seq<char>) -> Seq<ProjectView> {
    sorted_projects(shown_projects(listings.map_values(|l: ProjectListing| project_of(l, pinned_projects, pinned_docs, query)), query))
}

fn clone_name(n: &Option<String>, path: &String) -> (res: String)
    ensures
        res@ == match n {
            Some(s) => s@,
            None => path@,
        },
{
    match n {
        Some(s) => s.clone(),
        None => path.clone(),
    }
}

/// Builds the sidebar's project list from the listings of the open projects.
pub fn sidebar_projects(listings: &Vec<ProjectListing>, pinned_projects: &Vec<String>, pinned_docs: &Vec<String>, search_query: &str) -> (res: Vec<SidebarProject>)
    ensures
        project_views(res@) == sidebar_project_list(listings@, string_views(pinned_projects@), string_views(pinned_docs@), search_query@),
{
    let ghost pp = string_views(pinned_projects@);
    let ghost pd = string_views(pinned_docs@);
    let ghost all = listings@.map_values(|l: ProjectListing| project_of(l, pp, pd, search_query@));
    let q = lowercase_chars(search_query);
    let mut shown: Vec<SidebarProject> = Vec::new();
    let mut i: usize = 0;
    while i < listings.len()
        invariant
            i <= listings@.len(),
            pp == string_views(pinned_projects@),
            pd == string_views(pinned_docs@),
            q@ == lowercase(search_query@),
            all == listings@.map_values(|l: ProjectListing| project_of(l, pp, pd, search_query@)),
            project_views(shown@) == shown_projects(all.take(i as int), search_query@),
        decreases listings.len() - i,
    {
        assert(all.take(i + 1).drop_last() == all.take(i as int));
        assert(all.take(i + 1).last() == all[i as int]);
        let l = &listings[i];
        let docs = scan_markdown_files(&l.entries, pinned_docs);
        let conversations = search_documents(docs, search_query);
        let name = clone_name(&l.file_name, &l.path);
        let p = SidebarProject {
            name,
            workspace: l.path.clone(),
            is_pinned: contains_entry(pinned_projects, l.path.as_str()),
            conversations,
        };
        let ghost pv = p@;
        assert(pv == all[i as int]);
        let keep = q.len() == 0 || contains_chars(&lowercase_chars(p.name.as_str()), &q) || p.conversations.len() > 0;
        if keep {
            let ghost before = project_views(shown@);
            shown.push(p);
            assert(project_views(shown@) =~= before.push(pv));
        }
        i += 1;
    }
    assert(all.take(listings.len() as int) == all);
    let mut keys: Vec<SortKey> = Vec::new();
    let mut k: usize = 0;
    while k < shown.len()
        invariant
            k <= shown@.len(),
            keys@.len() == k,
            forall|m: int| 0 <= m < k ==> (#[trigger] keys@[m].pinned, keys@[m].name@) == project_key(shown@[m]@),
        decreases shown.len() - k,
    {
        let name = lowercase_chars(shown[k].name.as_str());
        keys.push(SortKey { pinned: shown[k].is_pinned, name });
        k += 1;
    }
    let ghost sv = project_views(shown@);
    let ghost pairs = keyed(shown@, keys@);
    let res = sort_items_by_key(shown, keys);
    proof {
        lemma_sort_map_views(pairs);
        assert(sv.map_values(|p: ProjectView| (p, project_key(p))) =~= view_pairs(pairs));
        assert(project_views(res@) =~= sort_by_key(pairs).map_values(|p: (SidebarProject, (bool, Seq<char>))| p.0@));
    }
    res
}

/// The sidebar's general document list: the Markdown documents of the
/// listing, pinned first and then by title, that the search query keeps.
pub open spec fn sidebar_document_list(entries: Seq<FileEntry>, pinned_docs: Seq<Seq<char>>, query: Seq<char>) -> Seq<DocumentView> {
    searched_documents(sorted_documents(listed_documents(entries, pinned_docs)), query)
}

/// Builds the sidebar's general document list from a directory listing.
pub fn sidebar_documents(entries: &Vec<FileEntry>, pinned_docs: &Vec<String>, search_query: &str) -> (res: Vec<SidebarConversation>)
    ensures
        document_views(res@) == sidebar_document_list(entries@, string_views(pinned_docs@), search_query@),
{
    let docs = scan_markdown_files(entries, pinned_docs);
    search_documents(docs, search_query)
}

/// Index of the first document with the path `id`.
pub fn document_index(docs: &Vec<SidebarConversation>, id: &str) -> (res: Option<usize>)
    ensures
        res matches Some(i) ==> i < docs@.len() && docs@[i as int].id@ == id@ && forall|j: int| 0 <= j < i ==> docs@[j].id@ != id@,
        res is None ==> forall|j: int| 0 <= j < docs@.len() ==> docs@[j].id@ != id@,
{
    let target = id.to_owned();
    let mut i: usize = 0;
    while i < docs.len()
        invariant
            i <= docs@.len(),
            target@ == id@,
            forall|j: int| 0 <= j < i ==> docs@[j].id@ != id@,
        decreases docs.len() - i,
    {
        if docs[i].id == target {
            return Some(i);
        }
        i += 1;
    }
    None
}

// =============================================================================
// Laws
// =============================================================================

proof fn lemma_lex_less_irreflexive(a: Seq<char>)
    ensures
        !lex_less(a, a),
    decreases a.len(),
{
    if a.len() > 0 {
        lemma_lex_less_irreflexive(a.drop_first());
    }
}

proof fn lemma_lex_less_transitive(a: Seq<char>, b: Seq<char>, c: Seq<char>)
    requires
        lex_less(a, b),
        lex_less(b, c),
    ensures
        lex_less(a, c),
    decreases a.len(),
{
    if a.len() > 0 && b.len() > 0 && c.len() > 0 && a[0] == b[0] && b[0] == c[0] {
        lemma_lex_less_transitive(a.drop_first(), b.drop_first(), c.drop_first());
    }
}

proof fn lemma_key_before_order(a: (bool, Seq<char>), b: (bool, Seq<char>), c: (bool, Seq<char>))
    ensures
        !key_before(a, a),
        key_before(a, b) && key_before(b, c) ==> key_before(a, c),
{
    lemma_lex_less_irreflexive(a.1);
    if key_before(a, b) && key_before(b, c) && a.0 == b.0 && b.0 == c.0 {
        lemma_lex_less_transitive(a.1, b.1, c.1);
    }
}

/// Is a keyed sequence in key order: no element strictly before an earlier one?
pub open spec fn key_sorted<T>(s: Seq<(T, (bool, Seq<char>))>) -> bool {
    forall|i: int, j: int| 0 <= i < j < s.len() ==> !key_before(#[trigger] s[j].1, #[trigger] s[i].1)
}

/// Does no element of `s` come strictly before the key `b`?
pub open spec fn none_before<T>(s: Seq<(T, (bool, Seq<char>))>, b: (bool, Seq<char>)) -> bool {
    forall|j: int| 0 <= j < s.len() ==> !key_before(#[trigger] s[j].1, b)
}

proof fn lemma_insert_is_insert<T>(s: Seq<(T, (bool, Seq<char>))>, x: (T, (bool, Seq<char>))) -> (k: int)
    ensures
        0 <= k <= s.len(),
        insert_by_key(s, x) == s.insert(k, x),
    decreases s.len(),
{
    if s.len() == 0 {
        assert(s.insert(0, x) =~= seq![x]);
        0
    } else if key_before(x.1, s[0].1) {
        assert(s.insert(0, x) =~= seq![x] + s);
        0
    } else {
        let k = lemma_insert_is_insert(s.drop_first(), x);
        assert(seq![s[0]] + s.drop_first().insert(k, x) =~= s.insert(k + 1, x));
        k + 1
    }
}

proof fn lemma_insert_none_before<T>(s: Seq<(T, (bool, Seq<char>))>, x: (T, (bool, Seq<char>)), b: (bool, Seq<char>))
    requires
        none_before(s, b),
        !key_before(x.1, b),
    ensures
        none_before(insert_by_key(s, x), b),
{
    let k = lemma_insert_is_insert(s, x);
    let r = s.insert(k, x);
    assert forall|j: int| 0 <= j < r.len() implies !key_before(#[trigger] r[j].1, b) by {
        if j < k {
            assert(r[j] == s[j]);
        } else if j > k {
            assert(r[j] == s[j - 1]);
        }
    }
}

proof fn lemma_insert_sorted<T>(s: Seq<(T, (bool, Seq<char>))>, x: (T, (bool, Seq<char>)))
    requires
        key_sorted(s),
    ensures
        key_sorted(insert_by_key(s, x)),
    decreases s.len(),
{
    let r = insert_by_key(s, x);
    if s.len() == 0 {
    } else if key_before(x.1, s[0].1) {
        assert forall|i: int, j: int| 0 <= i < j < r.len() implies !key_before(#[trigger] r[j].1, #[trigger] r[i].1) by {
            assert(r[j] == s[j - 1]);
            if i == 0 {
                lemma_key_before_order(s[j - 1].1, x.1, s[0].1);
                if j - 1 > 0 {
                    assert(!key_before(s[j - 1].1, s[0].1));
                }
            } else {
                assert(r[i] == s[i - 1]);
            }
        }
    } else {
        let rest = s.drop_first();
        assert(key_sorted(rest)) by {
            assert forall|i: int, j: int| 0 <= i < j < rest.len() implies !key_before(#[trigger] rest[j].1, #[trigger] rest[i].1) by {
                assert(rest[j] == s[j + 1] && rest[i] == s[i + 1]);
            }
        }
        lemma_insert_sorted(rest, x);
        let t = insert_by_key(rest, x);
        assert(none_before(rest, s[0].1)) by {
            assert forall|j: int| 0 <= j < rest.len() implies !key_before(#[trigger] rest[j].1, s[0].1) by {
                assert(rest[j] == s[j + 1]);
            }
        }
        lemma_insert_none_before(rest, x, s[0].1);
        assert(r == seq![s[0]] + t);
        assert forall|i: int, j: int| 0 <= i < j < r.len() implies !key_before(#[trigger] r[j].1, #[trigger] r[i].1) by {
            assert(r[j] == t[j - 1]);
            if i > 0 {
                assert(r[i] == t[i - 1]);
            }
        }
    }
}

/// Sorting by key orders the elements by key and keeps exactly the same
/// elements, each as often as before.
pub proof fn lemma_sort_by_key<T>(s: Seq<(T, (bool, Seq<char>))>)
    ensures
        key_sorted(sort_by_key(s)),
        sort_by_key(s).to_multiset() == s.to_multiset(),
        sort_by_key(s).len() == s.len(),
    decreases s.len(),
{
    broadcast use vstd::seq_lib::group_to_multiset_ensures;
    if s.len() > 0 {
        let rest = s.drop_last();
        lemma_sort_by_key(rest);
        lemma_insert_sorted(sort_by_key(rest), s.last());
        let k = lemma_insert_is_insert(sort_by_key(rest), s.last());
        assert(rest.push(s.last()) == s);
    }
}

/// The sidebar's document order: pinned documents come first, then documents
/// in order of their lowercase titles; ordering keeps exactly the same documents.
pub proof fn lemma_sorted_documents(docs: Seq<DocumentView>)
    ensures
        sorted_documents(docs).len() == docs.len(),
        forall|i: int, j: int|
            0 <= i < j < docs.len() ==> !key_before(
                doc_key(#[trigger] sorted_documents(docs)[j]),
                doc_key(#[trigger] sorted_documents(docs)[i]),
            ),
        forall|i: int, j: int|
            0 <= i < j < docs.len() && (#[trigger] sorted_documents(docs)[j]).is_pinned
                ==> (#[trigger] sorted_documents(docs)[i]).is_pinned,
        forall|d: DocumentView| sorted_documents(docs).contains(d) <==> docs.contains(d),
{
    broadcast use vstd::seq_lib::group_to_multiset_ensures;
    let pairs = docs.map_values(|d: DocumentView| (d, doc_key(d)));
    lemma_sort_by_key(pairs);
    let sp = sort_by_key(pairs);
    let r = sorted_documents(docs);
    assert forall|i: int| 0 <= i < sp.len() implies (#[trigger] sp[i]).1 == doc_key(sp[i].0) && docs.contains(sp[i].0) by {
        assert(sp.to_multiset().count(sp[i]) > 0);
        assert(pairs.contains(sp[i]));
        let k = choose|k: int| 0 <= k < pairs.len() && pairs[k] == sp[i];
        assert(docs[k] == sp[i].0);
    }
    assert forall|d: DocumentView| r.contains(d) <==> docs.contains(d) by {
        if r.contains(d) {
            let i = choose|i: int| 0 <= i < r.len() && r[i] == d;
            assert(sp[i].0 == d);
        }
        if docs.contains(d) {
            let k = choose|k: int| 0 <= k < docs.len() && docs[k] == d;
            assert(pairs[k] == (d, doc_key(d)));
            assert(pairs.to_multiset().count(pairs[k]) > 0);
            assert(sp.contains(pairs[k]));
            let i = choose|i: int| 0 <= i < sp.len() && sp[i] == pairs[k];
            assert(r[i] == d);
        }
    }
    assert forall|i: int, j: int| 0 <= i < j < docs.len() implies !key_before(
        doc_key(#[trigger] r[j]),
        doc_key(#[trigger] r[i]),
    ) by {
        assert(sp[i].1 == doc_key(r[i]));
        assert(sp[j].1 == doc_key(r[j]));
    }
    assert forall|i: int, j: int| 0 <= i < j < docs.len() && (#[trigger] r[j]).is_pinned implies (#[trigger] r[i]).is_pinned by {
        assert(sp[i].1 == doc_key(r[i]));
        assert(sp[j].1 == doc_key(r[j]));
    }
}

/// The search keeps exactly the documents whose lowercase title holds the
/// query, in their order, and never adds any.
pub proof fn lemma_documents_matching(docs: Seq<DocumentView>, q: Seq<char>)
    ensures
        forall|d: DocumentView| documents_matching(docs, q).contains(d) <==> (docs.contains(d) && matches_query(d, q)),
        documents_matching(docs, q).len() <= docs.len(),
    decreases docs.len(),
{
    if docs.len() > 0 {
        let rest = docs.drop_last();
        let last = docs.last();
        lemma_documents_matching(rest, q);
        let m = documents_matching(rest, q);
        assert(docs == rest.push(last));
        assert forall|d: DocumentView| documents_matching(docs, q).contains(d) <==> (docs.contains(d) && matches_query(d, q)) by {
            lemma_push_contains_doc(rest, last, d);
            lemma_push_contains_doc(m, last, d);
        }
    }
}

/// `a` and `b` agree on their first `k` characters, and there `a` ends while
/// `b` goes on, or `a` has the character with the smaller code point.
pub open spec fn first_difference_favours(a: Seq<char>, b: Seq<char>, k: int) -> bool {
    &&& 0 <= k <= a.len()
    &&& k <= b.len()
    &&& forall|j: int| 0 <= j < k ==> a[j] == b[j]
    &&& ((k == a.len() && k < b.len()) || (k < a.len() && k < b.len() && (a[k] as u32) < (b[k] as u32)))
}

/// The title order is lexicographic by code point: `a` comes before `b`
/// exactly when, at the first place where they differ, `a` has ended or has
/// the smaller character. It is a strict total order on distinct texts.
pub proof fn lemma_lex_less_is_lexicographic(a: Seq<char>, b: Seq<char>)
    ensures
        lex_less(a, b) <==> exists|k: int| first_difference_favours(a, b, k),
        a != b ==> (lex_less(a, b) || lex_less(b, a)),
        !(lex_less(a, b) && lex_less(b, a)),
    decreases a.len(),
{
    if a.len() == 0 {
        if b.len() > 0 {
            assert(first_difference_favours(a, b, 0));
        }
        if b.len() == 0 {
            assert(a =~= b);
        }
    } else if b.len() == 0 {
        assert(!first_difference_favours(b, a, 0) || true);
    } else if a[0] != b[0] {
        if (a[0] as u32) < (b[0] as u32) {
            assert(first_difference_favours(a, b, 0));
        } else {
            lemma_char_codes_differ(a[0], b[0]);
            assert(first_difference_favours(b, a, 0));
        }
        assert forall|k: int| first_difference_favours(a, b, k) implies k == 0 by {
            if k > 0 {
                assert(a[0] == b[0]);
            }
        }
    } else {
        let a1 = a.drop_first();
        let b1 = b.drop_first();
        lemma_lex_less_is_lexicographic(a1, b1);
        if lex_less(a, b) {
            let k = choose|k: int| first_difference_favours(a1, b1, k);
            assert forall|j: int| 0 <= j < k + 1 implies a[j] == b[j] by {
                if j > 0 {
                    assert(a1[j - 1] == b1[j - 1]);
                }
            }
            assert(first_difference_favours(a, b, k + 1));
        }
        if exists|k: int| first_difference_favours(a, b, k) {
            let k = choose|k: int| first_difference_favours(a, b, k);
            if k == 0 {
                assert(false);
            }
            assert forall|j: int| 0 <= j < k - 1 implies a1[j] == b1[j] by {
                assert(a[j + 1] == b[j + 1]);
            }
            assert(first_difference_favours(a1, b1, k - 1));
        }
        if a != b {
            if a1 == b1 {
                assert(a =~= b) by {
                    assert forall|j: int| 0 <= j < a.len() implies a[j] == b[j] by {
                        if j > 0 {
                            assert(a1[j - 1] == b1[j - 1]);
                        }
                    }
                }
            }
        }
    }
}

proof fn lemma_char_codes_differ(c: char, d: char)
    requires
        c != d,
    ensures
        (c as u32) != (d as u32),
{
    assert((c as u32) as int == c as int);
    assert((d as u32) as int == d as int);
}

/// Among documents of the same pinned status, the sidebar order puts
/// distinct lowercase titles in strictly increasing lexicographic order.
pub proof fn lemma_sorted_titles_increase(docs: Seq<DocumentView>, i: int, j: int)
    requires
        0 <= i < j < docs.len(),
        sorted_documents(docs)[i].is_pinned == sorted_documents(docs)[j].is_pinned,
        lowercase(sorted_documents(docs)[i].title) != lowercase(sorted_documents(docs)[j].title),
    ensures
        lex_less(lowercase(sorted_documents(docs)[i].title), lowercase(sorted_documents(docs)[j].title)),
{
    lemma_sorted_documents(docs);
    let r = sorted_documents(docs);
    assert(!key_before(doc_key(r[j]), doc_key(r[i])));
    lemma_lex_less_is_lexicographic(lowercase(r[i].title), lowercase(r[j].title));
}

proof fn lemma_shown_projects_contains(ps: Seq<ProjectView>, query: Seq<char>, x: ProjectView)
    ensures
        shown_projects(ps, query).contains(x) <==> (ps.contains(x) && project_shown(x, query)),
    decreases ps.len(),
{
    if ps.len() > 0 {
        let rest = ps.drop_last();
        let last = ps.last();
        lemma_shown_projects_contains(rest, query, x);
        let m = shown_projects(rest, query);
        assert(ps == rest.push(last));
        lemma_push_contains_project(rest, last, x);
        lemma_push_contains_project(m, last, x);
    }
}

proof fn lemma_push_contains_project(s: Seq<ProjectView>, a: ProjectView, x: ProjectView)
    ensures
        s.push(a).contains(x) <==> (s.contains(x) || a == x),
{
    let t = s.push(a);
    if s.contains(x) {
        let k = choose|k: int| 0 <= k < s.len() && s[k] == x;
        assert(t[k] == x);
    }
    if a == x {
        assert(t[s.len() as int] == x);
    }
    if t.contains(x) {
        let k = choose|k: int| 0 <= k < t.len() && t[k] == x;
        if k < s.len() {
            assert(s[k] == x);
        }
    }
}

proof fn lemma_sorted_projects_contains(ps: Seq<ProjectView>, x: ProjectView)
    ensures
        sorted_projects(ps).contains(x) <==> ps.contains(x),
{
    broadcast use vstd::seq_lib::group_to_multiset_ensures;
    let pairs = ps.map_values(|p: ProjectView| (p, project_key(p)));
    lemma_sort_by_key(pairs);
    let sp = sort_by_key(pairs);
    let r = sorted_projects(ps);
    if r.contains(x) {
        let i = choose|i: int| 0 <= i < r.len() && r[i] == x;
        assert(sp[i].0 == x);
        assert(sp.to_multiset().count(sp[i]) > 0);
        assert(pairs.contains(sp[i]));
        let k = choose|k: int| 0 <= k < pairs.len() && pairs[k] == sp[i];
        assert(ps[k] == x);
    }
    if ps.contains(x) {
        let k = choose|k: int| 0 <= k < ps.len() && ps[k] == x;
        assert(pairs[k] == (x, project_key(x)));
        assert(pairs.to_multiset().count(pairs[k]) > 0);
        assert(sp.contains(pairs[k]));
        let i = choose|i: int| 0 <= i < sp.len() && sp[i] == pairs[k];
        assert(r[i] == x);
    }
}

/// The sidebar's project search: an open project whose lowercase name holds
/// the lowercase query is listed, whatever the letter case of its name and of
/// the query; a listed project is an open project whose name matched, one with
/// a matching document, or any project when the query is empty.
pub proof fn lemma_project_search(
    listings: Seq<ProjectListing>,
    pinned_projects: Seq<Seq<char>>,
    pinned_docs: Seq<Seq<char>>,
    query: Seq<char>,
    i: int,
)
    requires
        0 <= i < listings.len(),
    ensures
        ({
            let name = match listings[i].file_name {
                Some(n) => n@,
                None => listings[i].path@,
            };
            contains_seq(lowercase(name), lowercase(query)) ==> sidebar_project_list(listings, pinned_projects, pinned_docs, query).contains(
                project_of(listings[i], pinned_projects, pinned_docs, query),
            )
        }),
        forall|p: ProjectView|
            #![trigger sidebar_project_list(listings, pinned_projects, pinned_docs, query).contains(p)]
            sidebar_project_list(listings, pinned_projects, pinned_docs, query).contains(p) ==> {
                &&& exists|k: int| 0 <= k < listings.len() && p == project_of(listings[k], pinned_projects, pinned_docs, query)
                &&& (lowercase(query).len() == 0 || contains_seq(lowercase(p.name), lowercase(query)) || p.conversations.len() > 0)
            },
{
    let all = listings.map_values(|l: ProjectListing| project_of(l, pinned_projects, pinned_docs, query));
    let x = project_of(listings[i], pinned_projects, pinned_docs, query);
    assert(all[i] == x);
    lemma_shown_projects_contains(all, query, x);
    lemma_sorted_projects_contains(shown_projects(all, query), x);
    assert forall|p: ProjectView|
        #![trigger sidebar_project_list(listings, pinned_projects, pinned_docs, query).contains(p)]
        sidebar_project_list(listings, pinned_projects, pinned_docs, query).contains(p) implies {
            &&& exists|k: int| 0 <= k < listings.len() && p == project_of(listings[k], pinned_projects, pinned_docs, query)
            &&& (lowercase(query).len() == 0 || contains_seq(lowercase(p.name), lowercase(query)) || p.conversations.len() > 0)
        } by {
        lemma_sorted_projects_contains(shown_projects(all, query), p);
        lemma_shown_projects_contains(all, query, p);
        let k = choose|k: int| 0 <= k < all.len() && all[k] == p;
        assert(p == project_of(listings[k], pinned_projects, pinned_docs, query));
    }
}

/// The sidebar's document search keeps a document exactly when the query is
/// empty once lowercased or the document's lowercase title holds the
/// lowercase query, whatever the letter case of either; it adds none.
pub proof fn lemma_document_search(docs: Seq<DocumentView>, query: Seq<char>, d: DocumentView)
    ensures
        searched_documents(docs, query).contains(d) <==> (docs.contains(d) && (lowercase(query).len() == 0
            || contains_seq(lowercase(d.title), lowercase(query)))),
{
    lemma_documents_matching(docs, lowercase(query));
}

proof fn lemma_push_contains_doc(s: Seq<DocumentView>, a: DocumentView, x: DocumentView)
    ensures
        s.push(a).contains(x) <==> (s.contains(x) || a == x),
{
    let t = s.push(a);
    if s.contains(x) {
        let k = choose|k: int| 0 <= k < s.len() && s[k] == x;
        assert(t[k] == x);
    }
    if a == x {
        assert(t[s.len() as int] == x);
    }
    if t.contains(x) {
        let k = choose|k: int| 0 <= k < t.len() && t[k] == x;
        if k < s.len() {
            assert(s[k] == x);
        }
    }
}

} // verus!
