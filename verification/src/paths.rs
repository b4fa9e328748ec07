//! File system paths held as text: their parent, last component, equality
//! and order as `std::path::Path` gives them, and sorting by that order.
use vstd::prelude::*;
use std::path::Path;

verus! {

broadcast use vstd::seq_lib::to_multiset_insert, vstd::seq_lib::to_multiset_build;

/// The parent of `path` (`Path::parent`), where it has one.
pub uninterp spec fn parent_of(path: Seq<char>) -> Option<Seq<char>>;

/// Whether `a` and `b` name the same path (`Path`'s `==`, which compares
/// components, so `a/b` and `a//b` are the same).
pub uninterp spec fn same_path(a: Seq<char>, b: Seq<char>) -> bool;

/// Whether `a` comes before `b` in `Path`'s order (by components).
pub uninterp spec fn path_before(a: Seq<char>, b: Seq<char>) -> bool;

/// The last component of `path` (`Path::file_name`, lossily as text),
/// empty where it has none.
pub uninterp spec fn file_name_of(path: Seq<char>) -> Seq<char>;

/// Calls `Path::parent`; the result is named by `parent_of`. The parent is
/// the path without its final component, so it is shorter.
#[verifier::external_body]
pub(crate) fn path_parent(path: &String) -> (r: Option<String>)
    ensures
        match r {
            Some(p) => parent_of(path@) == Some(p@) && p@.len() < path@.len(),
            None => parent_of(path@) is None,
        },
{
    match Path::new(path.as_str()).parent() {
        Some(p) => Some(p.to_string_lossy().into_owned()),
        None => None,
    }
}

/// Compares two paths with `Path`'s `==`; the result is named by
/// `same_path`.
#[verifier::external_body]
pub(crate) fn path_eq(a: &String, b: &String) -> (r: bool)
    ensures
        r == same_path(a@, b@),
{
    Path::new(a.as_str()) == Path::new(b.as_str())
}

/// Compares two paths with `Path`'s `<`; the result is named by
/// `path_before`. The order is a total order, so where `a` comes before
/// `b`, `b` does not come before `a`.
#[verifier::external_body]
pub(crate) fn path_lt(a: &String, b: &String) -> (r: bool)
    ensures
        r == path_before(a@, b@),
        r ==> !path_before(b@, a@),
{
    Path::new(a.as_str()) < Path::new(b.as_str())
}

/// Calls `Path::file_name` and `OsStr::to_string_lossy`; the result is
/// named by `file_name_of`.
#[verifier::external_body]
pub(crate) fn path_file_name(path: &String) -> (s: String)
    ensures
        s@ == file_name_of(path@),
{
    Path::new(path.as_str()).file_name().unwrap_or_default().to_string_lossy().into_owned()
}

/// The texts of some strings.
pub open spec fn texts(v: Seq<String>) -> Seq<Seq<char>> {
    v.map_values(|s: String| s@)
}

/// `s` with `x` put in before the first entry at or after `i` that `x`
/// comes before (at the end where there is none).
pub open spec fn insert_path(s: Seq<Seq<char>>, x: Seq<char>, i: int) -> Seq<Seq<char>>
    decreases s.len() - i,
{
    if i < 0 || i >= s.len() {
        s.push(x)
    } else if path_before(x, s[i]) {
        s.insert(i, x)
    } else {
        insert_path(s, x, i + 1)
    }
}

/// `s` sorted by path order, stably: each entry is put in after those
/// before it that it does not come before.
pub open spec fn sorted_paths(s: Seq<Seq<char>>) -> Seq<Seq<char>>
    decreases s.len(),
{
    if s.len() == 0 {
        s
    } else {
        insert_path(sorted_paths(s.drop_last()), s.last(), 0)
    }
}

/// No entry of `s` comes before the one just ahead of it.
pub open spec fn paths_ordered(s: Seq<Seq<char>>) -> bool {
    forall|i: int, j: int| 0 <= i && j == i + 1 && j < s.len() ==> !path_before(#[trigger] s[j], #[trigger] s[i])
}

proof fn lemma_insert_path_at(s: Seq<Seq<char>>, x: Seq<char>, i: int, p: int)
    requires
        0 <= i <= p <= s.len(),
        forall|q: int| i <= q < p ==> !path_before(x, #[trigger] s[q]),
        p < s.len() ==> path_before(x, s[p]),
    ensures
        insert_path(s, x, i) == s.insert(p, x),
    decreases p - i,
{
    if i < p {
        assert(!path_before(x, s[i]));
        lemma_insert_path_at(s, x, i + 1, p);
    } else if p == s.len() {
        assert(s.push(x) =~= s.insert(p, x));
    }
}

/// Sorts paths by `Path`'s order, stably: the result holds the same
/// paths, each no earlier in the order than the one before it.
pub fn sort_paths(v: &Vec<String>) -> (out: Vec<String>)
    ensures
        texts(out@) == sorted_paths(texts(v@)),
        texts(out@).to_multiset() == texts(v@).to_multiset(),
        paths_ordered(texts(out@)),
{
    let mut out: Vec<String> = Vec::new();
    let mut k: usize = 0;
    assert(texts(out@) =~= texts(v@).take(0));
    while k < v.len()
        invariant
            k <= v@.len(),
            texts(out@) == sorted_paths(texts(v@).take(k as int)),
            texts(out@).to_multiset() == texts(v@).take(k as int).to_multiset(),
            paths_ordered(texts(out@)),
        decreases v@.len() - k,
    {
        let x = v[k].clone();
        let ghost s = texts(out@);
        let mut p: usize = 0;
        while p < out.len()
            invariant
                p <= out@.len(),
                s == texts(out@),
                k < v@.len(),
                x@ == v@[k as int]@,
                forall|q: int| 0 <= q < p ==> !path_before(x@, #[trigger] s[q]),
            ensures
                p <= out@.len(),
                forall|q: int| 0 <= q < p ==> !path_before(x@, #[trigger] s[q]),
                p < out@.len() ==> path_before(x@, s[p as int]) && !path_before(s[p as int], x@),
            decreases out@.len() - p,
        {
            if path_lt(&x, &out[p]) {
                break;
            }
            p += 1;
        }
        proof {
            lemma_insert_path_at(s, x@, 0, p as int);
            assert(texts(v@).take(k + 1).drop_last() =~= texts(v@).take(k as int));
            assert(texts(v@).take(k + 1).last() == x@);
            assert(texts(v@).take(k + 1) =~= texts(v@).take(k as int).push(x@));
        }
        out.insert(p, x);
        proof {
            assert(texts(out@) =~= s.insert(p as int, v@[k as int]@));
            let n = texts(out@);
            assert forall|i: int, j: int| 0 <= i && j == i + 1 && j < n.len() implies !path_before(
                #[trigger] n[j],
                #[trigger] n[i],
            ) by {
                if j < p {
                    assert(n[i] == s[i] && n[j] == s[j]);
                } else if j == p {
                    assert(n[j] == x@ && n[i] == s[i]);
                } else if i == p {
                    assert(n[i] == x@ && n[j] == s[i]);
                } else {
                    assert(n[i] == s[i - 1] && n[j] == s[j - 1]);
                }
            }
        }
        k += 1;
    }
    assert(texts(v@).take(v@.len() as int) =~= texts(v@));
    out
}

} // verus!
