//! Names for new documents: `Untitled Document.md`, `Untitled Document 1.md`,
//! ... , the first one not taken in the directory.
use vstd::prelude::*;
use crate::text::{lowercase, to_lowercase, trim, trim_str, chars_of, decimal, decimal_digits, decimal_of_u64, extend_chars, extend_vec, lemma_decimal_digits_injective, lemma_decimal_digits_shape, string_from_chars};
use crate::workspace::config::{contains_entry, string_views};

verus! {

/// The `n`-th candidate name for a new document with prefix `prefix`:
/// `prefix.md`, then `prefix 1.md`, `prefix 2.md`, ...
pub open spec fn doc_candidate(prefix: Seq<char>, n: nat) -> Seq<char> {
    if n == 0 {
        prefix + ".md"@
    } else {
        prefix + seq![' '] + decimal(n as int) + ".md"@
    }
}

/// `name` inside the directory `dir` (paths separated by `/`).
pub open spec fn join_path(dir: Seq<char>, name: Seq<char>) -> Seq<char> {
    if dir.len() == 0 {
        name
    } else if dir.last() == '/' {
        dir + name
    } else {
        dir + seq!['/'] + name
    }
}

/// Is candidate `k` the first one not taken?
pub open spec fn is_first_free(prefix: Seq<char>, taken: Seq<Seq<char>>, k: nat) -> bool {
    &&& !taken.contains(doc_candidate(prefix, k))
    &&& forall|j: nat| j < k ==> taken.contains(#[trigger] doc_candidate(prefix, j))
}

/// Different candidate numbers give different names.
pub proof fn lemma_candidates_distinct(prefix: Seq<char>, a: nat, b: nat)
    requires
        a != b,
    ensures
        doc_candidate(prefix, a) != doc_candidate(prefix, b),
{
    reveal_strlit(".md");
    lemma_decimal_digits_shape(a);
    lemma_decimal_digits_shape(b);
    let p = prefix.len() as int;
    if a == 0 || b == 0 {
        assert(doc_candidate(prefix, a).len() != doc_candidate(prefix, b).len());
    } else {
        let ca = doc_candidate(prefix, a);
        let cb = doc_candidate(prefix, b);
        if ca == cb {
            assert(decimal(a as int) == decimal_digits(a));
            assert(decimal(b as int) == decimal_digits(b));
            let la = decimal_digits(a).len() as int;
            let lb = decimal_digits(b).len() as int;
            assert(ca.len() == p + 1 + la + 3);
            assert(cb.len() == p + 1 + lb + 3);
            assert(la == lb);
            assert(ca.subrange(p + 1, p + 1 + la) =~= decimal_digits(a));
            assert(cb.subrange(p + 1, p + 1 + lb) =~= decimal_digits(b));
            lemma_decimal_digits_injective(a, b);
        }
    }
}

/// A directory with `n` taken names cannot take the first `n + 1`
/// candidates: a free name is found among the first `n + 1` candidates.
pub proof fn lemma_free_candidate_bound(prefix: Seq<char>, taken: Seq<Seq<char>>, c: nat)
    requires
        forall|j: nat| j <= c ==> taken.contains(#[trigger] doc_candidate(prefix, j)),
    ensures
        c + 1 <= taken.len(),
{
    broadcast use vstd::seq_lib::seq_to_set_is_finite;
    let cs = Seq::new((c + 1) as nat, |j: int| doc_candidate(prefix, j as nat));
    assert(cs.no_duplicates()) by {
        assert forall|i: int, j: int| 0 <= i < cs.len() && 0 <= j < cs.len() && i != j implies cs[i] != cs[j] by {
            lemma_candidates_distinct(prefix, i as nat, j as nat);
        }
    }
    cs.unique_seq_to_set();
    assert(cs.to_set().subset_of(taken.to_set())) by {
        assert forall|x: Seq<char>| cs.to_set().contains(x) implies taken.to_set().contains(x) by {
            let j = choose|j: int| 0 <= j < cs.len() && cs[j] == x;
            assert(taken.contains(doc_candidate(prefix, j as nat)));
        }
    }
    vstd::set_lib::lemma_len_subset(cs.to_set(), taken.to_set());
    taken.lemma_cardinality_of_set();
}

fn candidate_chars(prefix: &str, n: usize) -> (res: Vec<char>)
    ensures
        res@ == doc_candidate(prefix@, n as nat),
{
    let mut v = chars_of(prefix);
    if n > 0 {
        v.push(' ');
        let d = decimal_of_u64(n as u64);
        extend_vec(&mut v, &d);
    }
    extend_chars(&mut v, ".md");
    v
}

fn join_path_chars(dir: &str, name: &Vec<char>) -> (res: String)
    ensures
        res@ == join_path(dir@, name@),
{
    let mut v = chars_of(dir);
    if v.len() > 0 && v[v.len() - 1] != '/' {
        v.push('/');
    }
    extend_vec(&mut v, name);
    string_from_chars(&v)
}

/// The path of a new document in `dir`: the first candidate name (`prefix.md`,
/// `prefix 1.md`, `prefix 2.md`, ...) not among the names already taken there.
pub fn generate_unique_doc_path(dir: &str, prefix: &str, taken_names: &Vec<String>) -> (res: String)
    ensures
        exists|k: nat| #[trigger] is_first_free(prefix@, string_views(taken_names@), k)
            && res@ == join_path(dir@, doc_candidate(prefix@, k)),
{
    let ghost taken = string_views(taken_names@);
    let n = taken_names.len();
    let mut counter: usize = 0;
    let mut cand = candidate_chars(prefix, 0);
    while contains_entry(taken_names, string_from_chars(&cand).as_str())
        invariant
            taken == string_views(taken_names@),
            taken.len() == taken_names@.len(),
            n == taken_names@.len(),
            counter <= taken.len(),
            cand@ == doc_candidate(prefix@, counter as nat),
            forall|j: nat| j < counter ==> taken.contains(#[trigger] doc_candidate(prefix@, j)),
        decreases taken.len() - counter,
    {
        assert(taken.contains(doc_candidate(prefix@, counter as nat)));
        proof {
            assert forall|j: nat| j <= counter implies taken.contains(#[trigger] doc_candidate(prefix@, j)) by {
                if j < counter {
                } else {
                    assert(j == counter);
                }
            }
            lemma_free_candidate_bound(prefix@, taken, counter as nat);
        }
        counter += 1;
        cand = candidate_chars(prefix, counter);
    }
    let res = join_path_chars(dir, &cand);
    assert(is_first_free(prefix@, taken, counter as nat));
    res
}

/// Does `s` end with `.md`?
pub open spec fn ends_with_md(s: Seq<char>) -> bool {
    s.len() >= 3 && s.skip(s.len() - 3) == ".md"@
}

/// File name a document gets when renamed to `new_name`: the name without
/// surrounding whitespace, with `.md` added unless it already ends with it in
/// any letter case; none for a blank name.
pub open spec fn document_file_name(new_name: Seq<char>) -> Option<Seq<char>> {
    let clean = trim(new_name);
    if clean.len() == 0 {
        None
    } else if ends_with_md(lowercase(clean)) {
        Some(clean)
    } else {
        Some(clean + ".md"@)
    }
}

/// Directory name a project gets when renamed to `new_name`: the name without
/// surrounding whitespace; none for a blank name.
pub open spec fn project_dir_name(new_name: Seq<char>) -> Option<Seq<char>> {
    let clean = trim(new_name);
    if clean.len() == 0 {
        None
    } else {
        Some(clean)
    }
}

fn ends_with_md_chars(v: &Vec<char>) -> (res: bool)
    ensures
        res == ends_with_md(v@),
{
    proof {
        reveal_strlit(".md");
    }
    let n = v.len();
    if n < 3 {
        return false;
    }
    let r = v[n - 3] == '.' && v[n - 2] == 'm' && v[n - 1] == 'd';
    assert(r == (v@.skip(n - 3) == ".md"@)) by {
        if r {
            assert(v@.skip(n - 3) =~= ".md"@);
        }
        if v@.skip(n - 3) == ".md"@ {
            assert(v@.skip(n - 3)[0] == v@[n - 3]);
            assert(v@.skip(n - 3)[1] == v@[n - 2]);
            assert(v@.skip(n - 3)[2] == v@[n - 1]);
        }
    }
    r
}

/// The file name for renaming a document to `new_name` (see `document_file_name`).
pub fn renamed_document_file_name(new_name: &str) -> (res: Option<String>)
    ensures
        res matches Some(r) ==> document_file_name(new_name@) == Some(r@),
        res is None ==> document_file_name(new_name@) is None,
{
    let clean = trim_str(new_name);
    if clean.as_str().is_empty() {
        return None;
    }
    let lower = chars_of(to_lowercase(clean.as_str()).as_str());
    if ends_with_md_chars(&lower) {
        Some(clean)
    } else {
        let mut v = chars_of(clean.as_str());
        extend_chars(&mut v, ".md");
        Some(string_from_chars(&v))
    }
}

/// The directory name for renaming a project to `new_name` (see `project_dir_name`).
pub fn renamed_project_dir_name(new_name: &str) -> (res: Option<String>)
    ensures
        res matches Some(r) ==> project_dir_name(new_name@) == Some(r@),
        res is None ==> project_dir_name(new_name@) is None,
{
    let clean = trim_str(new_name);
    if clean.as_str().is_empty() {
        None
    } else {
        Some(clean)
    }
}

} // verus!
