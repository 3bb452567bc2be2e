//! Paths as text, with the few operations of `std::path` that the
//! explorers rely on.

use std::path::Path;
use vstd::prelude::*;

verus! {

/// The text of `base` joined with `name`, as `Path::join` builds it.
pub uninterp spec fn path_join(base: Seq<char>, name: Seq<char>) -> Seq<char>;

/// The text of the parent of a path, as `Path::parent` finds it
/// (`None` for a path that ends in a root or is empty).
pub uninterp spec fn path_parent(path: Seq<char>) -> Option<Seq<char>>;

/// The final component of a path, as `Path::file_name` finds it
/// (`None` where the path ends in `..` or has no final component).
pub uninterp spec fn path_file_name(path: Seq<char>) -> Option<Seq<char>>;

/// The components of a path, each by its text, as `Path::components`
/// splits it (`/` for the root, `.` and `..` for the special ones).
pub uninterp spec fn path_components(path: Seq<char>) -> Seq<Seq<char>>;

/// Two paths are equal for `Path`'s `==` when their components are.
pub open spec fn same_path_spec(a: Seq<char>, b: Seq<char>) -> bool {
    path_components(a) == path_components(b)
}

/// `child`'s components are the last components of `path`.
pub open spec fn ends_with_spec(path: Seq<char>, child: Seq<char>) -> bool {
    let p = path_components(path);
    let c = path_components(child);
    c.len() <= p.len() && p.subrange(p.len() - c.len(), p.len() as int) == c
}

/// Calls `Path::join`; the result is the joined path's text.
#[verifier::external_body]
pub(crate) fn join_path(base: &String, name: &String) -> (joined: String)
    ensures
        joined@ == path_join(base@, name@),
{
    Path::new(base).join(name).to_string_lossy().into_owned()
}

/// Calls `Path::parent`; the result is the parent's text, if any.
#[verifier::external_body]
pub(crate) fn parent_of(path: &String) -> (parent: Option<String>)
    ensures
        match parent {
            Some(p) => path_parent(path@) == Some(p@),
            None => path_parent(path@) is None,
        },
{
    match Path::new(path).parent() {
        Some(p) => Some(p.to_string_lossy().into_owned()),
        None => None,
    }
}

/// Calls `Path::file_name`; the result is the final component's text, if any.
#[verifier::external_body]
pub(crate) fn file_name_of(path: &String) -> (name: Option<String>)
    ensures
        match name {
            Some(n) => path_file_name(path@) == Some(n@),
            None => path_file_name(path@) is None,
        },
{
    match Path::new(path).file_name() {
        Some(n) => Some(n.to_string_lossy().into_owned()),
        None => None,
    }
}

/// Calls `Path::components`; the result holds the text of each component.
#[verifier::external_body]
pub(crate) fn components_of(path: &String) -> (parts: Vec<String>)
    ensures
        parts.deep_view() == path_components(path@),
{
    Path::new(path).components().map(|c| c.as_os_str().to_string_lossy().into_owned()).collect()
}

/// Whether two lists of texts hold the same texts in the same order.
fn texts_equal(a: &Vec<String>, b: &Vec<String>) -> (eq: bool)
    ensures
        eq == (a.deep_view() == b.deep_view()),
{
    if a.len() != b.len() {
        assert(a.deep_view().len() != b.deep_view().len());
        return false;
    }
    let n = a.len();
    let mut i: usize = 0;
    while i < n
        invariant
            n == a.len(),
            n == b.len(),
            0 <= i <= n,
            forall|j: int| 0 <= j < i ==> a@[j]@ == b@[j]@,
        decreases n - i,
    {
        if a[i] != b[i] {
            assert(a.deep_view()[i as int] != b.deep_view()[i as int]);
            return false;
        }
        i = i + 1;
    }
    assert(a.deep_view() =~= b.deep_view());
    true
}

/// Whether `a` and `b` name the same path, as `Path`'s `==` decides.
pub fn same_path(a: &String, b: &String) -> (same: bool)
    ensures
        same == same_path_spec(a@, b@),
{
    let ca = components_of(a);
    let cb = components_of(b);
    texts_equal(&ca, &cb)
}

/// Whether `path` ends with the components of `child`, as
/// `Path::ends_with` decides.
pub fn path_ends_with(path: &String, child: &String) -> (ends: bool)
    ensures
        ends == ends_with_spec(path@, child@),
{
    let p = components_of(path);
    let c = components_of(child);
    let ghost pv = p.deep_view();
    let ghost cv = c.deep_view();
    assert(pv.len() == p.len() && cv.len() == c.len());
    if c.len() > p.len() {
        return false;
    }
    let off = p.len() - c.len();
    let n = c.len();
    let mut i: usize = 0;
    while i < n
        invariant
            n == c.len(),
            off + n == p.len(),
            pv == p.deep_view(),
            cv == c.deep_view(),
            pv.len() == p.len(),
            cv.len() == c.len(),
            pv == path_components(path@),
            cv == path_components(child@),
            0 <= i <= n,
            forall|j: int| 0 <= j < i ==> pv[off + j] == cv[j],
        decreases n - i,
    {
        if p[off + i] != c[i] {
            assert(pv[off + i] == p@[off + i]@);
            assert(cv[i as int] == c@[i as int]@);
            assert(pv.subrange(off as int, p.len() as int)[i as int] != cv[i as int]);
            return false;
        }
        i = i + 1;
    }
    assert(pv.subrange(off as int, p.len() as int) =~= cv);
    true
}

} // verus!
