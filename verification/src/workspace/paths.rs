//! File paths compared the way `std::path::Path` compares them on Unix: by
//! their components, so that `dir//a.md`, `dir/./a.md` and `dir/a.md/` all
//! name `dir/a.md`.
use vstd::prelude::*;
use crate::text::chars_of;

verus! {

/// The components of a path, as `Path::components` yields them on Unix:
/// whether the path starts at the root `/`, whether it starts with a `.`
/// component, and its other components in order.
#[verifier::ext_equal]
pub struct PathComponents {
    pub root: bool,
    pub cur_dir: bool,
    pub parts: Seq<Seq<char>>,
}

/// The component that the text `cur` between two separators makes: none for
/// an empty text (a repeated or trailing `/`) or for `.`.
pub open spec fn part_of(cur: Seq<char>) -> Seq<Seq<char>> {
    if cur.len() == 0 || cur == seq!['.'] {
        Seq::empty()
    } else {
        seq![cur]
    }
}

/// Components of `s` after the partial component `cur`.
pub open spec fn parts_after(s: Seq<char>, cur: Seq<char>) -> Seq<Seq<char>>
    decreases s.len(),
{
    if s.len() == 0 {
        part_of(cur)
    } else if s[0] == '/' {
        part_of(cur) + parts_after(s.drop_first(), Seq::empty())
    } else {
        parts_after(s.drop_first(), cur.push(s[0]))
    }
}

/// The components of the path `s`.
pub open spec fn path_components(s: Seq<char>) -> PathComponents {
    let root = s.len() > 0 && s[0] == '/';
    PathComponents {
        root,
        cur_dir: !root && s.len() > 0 && s[0] == '.' && (s.len() == 1 || s[1] == '/'),
        parts: parts_after(s, Seq::empty()),
    }
}

/// The character sequences of a list of character vectors.
pub open spec fn char_vec_views(v: Seq<Vec<char>>) -> Seq<Seq<char>> {
    Seq::new(v.len(), |k: int| v[k]@)
}

fn push_part(out: &mut Vec<Vec<char>>, cur: Vec<char>)
    ensures
        char_vec_views(final(out)@) == char_vec_views(old(out)@) + part_of(cur@),
{
    let keep = !(cur.len() == 0 || (cur.len() == 1 && cur[0] == '.'));
    proof {
        if cur@ == seq!['.'] {
            assert(cur@[0] == '.');
        }
        if cur@.len() == 1 && cur@[0] == '.' {
            assert(cur@ =~= seq!['.']);
        }
    }
    if keep {
        let ghost before = char_vec_views(out@);
        let ghost cv = cur@;
        out.push(cur);
        assert(char_vec_views(out@) =~= before + seq![cv]);
    } else {
        assert(char_vec_views(out@) =~= char_vec_views(out@) + Seq::<Seq<char>>::empty());
    }
}

fn path_parts(v: &Vec<char>) -> (res: Vec<Vec<char>>)
    ensures
        char_vec_views(res@) == parts_after(v@, Seq::empty()),
{
    let mut out: Vec<Vec<char>> = Vec::new();
    let mut cur: Vec<char> = Vec::new();
    let mut i: usize = 0;
    assert(v@.skip(0) == v@);
    assert(char_vec_views(out@) =~= Seq::<Seq<char>>::empty());
    while i < v.len()
        invariant
            i <= v.len(),
            parts_after(v@, Seq::empty()) == char_vec_views(out@) + parts_after(v@.skip(i as int), cur@),
        decreases v.len() - i,
    {
        assert(v@.skip(i as int).drop_first() == v@.skip(i + 1));
        assert(v@.skip(i as int)[0] == v@[i as int]);
        if v[i] == '/' {
            let ghost before = char_vec_views(out@);
            let ghost part = part_of(cur@);
            let c = cur;
            cur = Vec::new();
            push_part(&mut out, c);
            assert(before + (part + parts_after(v@.skip(i + 1), Seq::empty())) =~= (before + part)
                + parts_after(v@.skip(i + 1), Seq::empty()));
        } else {
            cur.push(v[i]);
        }
        i += 1;
    }
    assert(v@.skip(i as int) == Seq::<char>::empty());
    push_part(&mut out, cur);
    out
}

fn same_chars(a: &Vec<char>, b: &Vec<char>) -> (res: bool)
    ensures
        res == (a@ == b@),
{
    if a.len() != b.len() {
        return false;
    }
    let mut i: usize = 0;
    while i < a.len()
        invariant
            i <= a@.len(),
            a@.len() == b@.len(),
            forall|k: int| 0 <= k < i ==> a@[k] == b@[k],
        decreases a.len() - i,
    {
        if a[i] != b[i] {
            return false;
        }
        i += 1;
    }
    assert(a@ =~= b@);
    true
}

fn same_parts(a: &Vec<Vec<char>>, b: &Vec<Vec<char>>) -> (res: bool)
    ensures
        res == (char_vec_views(a@) == char_vec_views(b@)),
{
    if a.len() != b.len() {
        assert(char_vec_views(a@).len() != char_vec_views(b@).len());
        return false;
    }
    let mut i: usize = 0;
    while i < a.len()
        invariant
            i <= a@.len(),
            a@.len() == b@.len(),
            forall|k: int| 0 <= k < i ==> a@[k]@ == b@[k]@,
        decreases a.len() - i,
    {
        if !same_chars(&a[i], &b[i]) {
            assert(char_vec_views(a@)[i as int] != char_vec_views(b@)[i as int]);
            return false;
        }
        i += 1;
    }
    assert(char_vec_views(a@) =~= char_vec_views(b@));
    true
}

fn starts_at_root(v: &Vec<char>) -> (res: bool)
    ensures
        res == path_components(v@).root,
{
    v.len() > 0 && v[0] == '/'
}

fn starts_with_cur_dir(v: &Vec<char>) -> (res: bool)
    ensures
        res == path_components(v@).cur_dir,
{
    !starts_at_root(v) && v.len() > 0 && v[0] == '.' && (v.len() == 1 || v[1] == '/')
}

/// Do the two paths have the same components (the comparison of
/// `std::path::Path`)?
pub fn same_path(a: &str, b: &str) -> (res: bool)
    ensures
        res == (path_components(a@) == path_components(b@)),
{
    let va = chars_of(a);
    let vb = chars_of(b);
    let flags = starts_at_root(&va) == starts_at_root(&vb) && starts_with_cur_dir(&va) == starts_with_cur_dir(&vb);
    let pa = path_parts(&va);
    let pb = path_parts(&vb);
    let parts = same_parts(&pa, &pb);
    proof {
        if flags && parts {
            assert(path_components(a@) =~= path_components(b@));
        }
    }
    flags && parts
}

} // verus!
