//! Sequence facts shared by both explorers: inserting a run of entries after
//! a position, and dropping the span between the first and the last entry
//! that satisfy a predicate.

use vstd::prelude::*;

verus! {

/// `f` is the first index of `s` whose element satisfies `p`.
pub open spec fn is_first_where<A>(s: Seq<A>, p: spec_fn(A) -> bool, f: int) -> bool {
    &&& 0 <= f < s.len()
    &&& p(s[f])
    &&& forall|j: int| 0 <= j < f ==> !p(#[trigger] s[j])
}

/// `l` is the last index of `s` whose element satisfies `p`.
pub open spec fn is_last_where<A>(s: Seq<A>, p: spec_fn(A) -> bool, l: int) -> bool {
    &&& 0 <= l < s.len()
    &&& p(s[l])
    &&& forall|j: int| l < j < s.len() ==> !p(#[trigger] s[j])
}

/// Some element of `s` satisfies `p`.
pub open spec fn any_where<A>(s: Seq<A>, p: spec_fn(A) -> bool) -> bool {
    exists|j: int| 0 <= j < s.len() && p(#[trigger] s[j])
}

/// `s` without the span that runs from its first to its last element that
/// satisfies `p` (both included); `s` itself where no element does.
pub open spec fn drop_span_where<A>(s: Seq<A>, p: spec_fn(A) -> bool) -> Seq<A> {
    if any_where(s, p) {
        let f = choose|f: int| is_first_where(s, p, f);
        let l = choose|l: int| is_last_where(s, p, l);
        s.take(f) + s.skip(l + 1)
    } else {
        s
    }
}

/// `t` inserted into `s` before position `i`.
pub open spec fn splice_at<A>(s: Seq<A>, i: int, t: Seq<A>) -> Seq<A> {
    s.take(i) + t + s.skip(i)
}

/// The span that `drop_span_where` drops is the one between the first and
/// the last matching element.
pub proof fn lemma_drop_span<A>(s: Seq<A>, p: spec_fn(A) -> bool, f: int, l: int)
    requires
        is_first_where(s, p, f),
        is_last_where(s, p, l),
    ensures
        f <= l,
        drop_span_where(s, p) == s.take(f) + s.skip(l + 1),
{
    assert(any_where(s, p));
    let f2 = choose|f2: int| is_first_where(s, p, f2);
    let l2 = choose|l2: int| is_last_where(s, p, l2);
    assert(is_first_where(s, p, f2));
    assert(is_last_where(s, p, l2));
    if f2 < f {
        assert(!p(s[f2]));
    }
    if f < f2 {
        assert(!p(s[f]));
    }
    if l2 < l {
        assert(!p(s[l]));
    }
    if l < l2 {
        assert(!p(s[l2]));
    }
    if l < f {
        assert(!p(s[l]));
    }
}

/// Where no element satisfies `p`, nothing is dropped.
pub proof fn lemma_drop_span_none<A>(s: Seq<A>, p: spec_fn(A) -> bool)
    requires
        forall|j: int| 0 <= j < s.len() ==> !p(#[trigger] s[j]),
    ensures
        drop_span_where(s, p) == s,
{
}

/// Removes the elements of `v` at positions `from` up to, not including, `to`.
pub fn remove_span<T>(v: &mut Vec<T>, from: usize, to: usize)
    requires
        from <= to <= old(v).len(),
    ensures
        final(v)@ == old(v)@.take(from as int) + old(v)@.skip(to as int),
{
    let mut tail = v.split_off(to);
    v.truncate(from);
    v.append(&mut tail);
    assert(v@ =~= old(v)@.take(from as int) + old(v)@.skip(to as int));
}

/// Inserts all of `items` into `v` before position `at`, keeping their order.
pub fn insert_all<T>(v: &mut Vec<T>, at: usize, items: Vec<T>)
    requires
        at <= old(v).len(),
    ensures
        final(v)@ == splice_at(old(v)@, at as int, items@),
{
    let ghost added = items@;
    let mut items = items;
    let mut tail = v.split_off(at);
    v.append(&mut items);
    v.append(&mut tail);
    assert(v@ =~= splice_at(old(v)@, at as int, added));
}

/// The views of the elements of `s`, in order.
pub open spec fn views<T: View>(s: Seq<T>) -> Seq<T::V> {
    s.map_values(|t: T| t@)
}

/// Every element that `drop_span_where` keeps is an element of `s`.
pub proof fn lemma_drop_span_elements<A>(s: Seq<A>, p: spec_fn(A) -> bool)
    ensures
        forall|j: int|
            0 <= j < drop_span_where(s, p).len() ==> s.contains(#[trigger] drop_span_where(s, p)[j]),
{
    let d = drop_span_where(s, p);
    if any_where(s, p) {
        let w = choose|w: int| 0 <= w < s.len() && p(#[trigger] s[w]);
        lemma_first_exists(s, p, w);
        lemma_last_exists(s, p, w);
        let f = choose|f: int| is_first_where(s, p, f);
        let l = choose|l: int| is_last_where(s, p, l);
        lemma_drop_span(s, p, f, l);
        assert forall|j: int| 0 <= j < d.len() implies s.contains(#[trigger] d[j]) by {
            if j < f {
                assert(d[j] == s[j]);
            } else {
                let k = j - f + l + 1;
                assert(d[j] == s[k]);
            }
        }
    } else {
        assert forall|j: int| 0 <= j < d.len() implies s.contains(#[trigger] d[j]) by {
            assert(d[j] == s[j]);
        }
    }
}

/// Where some element satisfies `p`, there is a first one.
pub proof fn lemma_first_exists<A>(s: Seq<A>, p: spec_fn(A) -> bool, w: int)
    requires
        0 <= w < s.len(),
        p(s[w]),
    ensures
        exists|f: int| is_first_where(s, p, f),
    decreases w,
{
    if forall|j: int| 0 <= j < w ==> !p(#[trigger] s[j]) {
        assert(is_first_where(s, p, w));
    } else {
        let v = choose|j: int| 0 <= j < w && p(#[trigger] s[j]);
        lemma_first_exists(s, p, v);
    }
}

/// Where some element satisfies `p`, there is a last one.
pub proof fn lemma_last_exists<A>(s: Seq<A>, p: spec_fn(A) -> bool, w: int)
    requires
        0 <= w < s.len(),
        p(s[w]),
    ensures
        exists|l: int| is_last_where(s, p, l),
    decreases s.len() - w,
{
    if forall|j: int| w < j < s.len() ==> !p(#[trigger] s[j]) {
        assert(is_last_where(s, p, w));
    } else {
        let v = choose|j: int| w < j < s.len() && p(#[trigger] s[j]);
        lemma_last_exists(s, p, v);
    }
}

/// Inserting a run of elements that all satisfy `p` right after position
/// `i` of a sequence none of whose elements does, and then dropping the
/// span of those that do, gives the sequence back.
pub proof fn lemma_drop_inserted_span<A>(s: Seq<A>, i: int, kids: Seq<A>, p: spec_fn(A) -> bool)
    requires
        0 <= i < s.len(),
        forall|j: int| 0 <= j < s.len() ==> !p(#[trigger] s[j]),
        forall|j: int| 0 <= j < kids.len() ==> p(#[trigger] kids[j]),
    ensures
        drop_span_where(splice_at(s, i + 1, kids), p) == s,
{
    let n = kids.len() as int;
    let u = splice_at(s, i + 1, kids);
    assert forall|j: int| 0 <= j <= i implies !p(#[trigger] u[j]) by {
        assert(u[j] == s[j]);
    }
    assert forall|j: int| i + n < j < u.len() implies !p(#[trigger] u[j]) by {
        assert(u[j] == s[j - n]);
    }
    if n > 0 {
        assert(u[i + 1] == kids[0]);
        assert(u[i + n] == kids[n - 1]);
        assert(is_first_where(u, p, i + 1));
        assert(is_last_where(u, p, i + n));
        lemma_drop_span(u, p, i + 1, i + n);
        assert(u.take(i + 1) + u.skip(i + n + 1) =~= s);
    } else {
        assert(u =~= s);
        lemma_drop_span_none(u, p);
    }
}

/// Removes from `v` the span from its first to its last element that
/// `pred` accepts (both included); `pred` decides `p` of each element's view.
pub fn drop_matching_span<T: View, F: Fn(&T) -> bool>(
    v: &mut Vec<T>,
    pred: F,
    Ghost(p): Ghost<spec_fn(T::V) -> bool>,
)
    requires
        forall|t: &T| #[trigger] pred.requires((t,)),
        forall|t: &T, b: bool| pred.ensures((t,), b) ==> b == p(t@),
    ensures
        views(final(v)@) == drop_span_where(views(old(v)@), p),
{
    let ghost s = views(v@);
    let mut first: Option<usize> = None;
    let mut last: Option<usize> = None;
    let n = v.len();
    let mut i: usize = 0;
    while i < n
        invariant
            n == v.len(),
            s == views(v@),
            forall|t: &T| #[trigger] pred.requires((t,)),
            forall|t: &T, b: bool| pred.ensures((t,), b) ==> b == p(t@),
            0 <= i <= n,
            first is None <==> last is None,
            first is None ==> forall|j: int| 0 <= j < i ==> !p(#[trigger] s[j]),
            first matches Some(f) ==> f < i && p(s[f as int]) && forall|j: int|
                0 <= j < f ==> !p(#[trigger] s[j]),
            last matches Some(l) ==> l < i && p(s[l as int]) && forall|j: int|
                l < j < i ==> !p(#[trigger] s[j]),
        decreases n - i,
    {
        let found = pred(&v[i]);
        proof {
            assert(s[i as int] == v@[i as int]@);
        }
        if found {
            if first.is_none() {
                first = Some(i);
            }
            last = Some(i);
        }
        i = i + 1;
    }
    match (first, last) {
        (Some(f), Some(l)) => {
            proof {
                assert(is_first_where(s, p, f as int));
                assert(is_last_where(s, p, l as int));
                lemma_drop_span(s, p, f as int, l as int);
            }
            remove_span(v, f, l + 1);
            proof {
                assert(views(v@) =~= s.take(f as int) + s.skip(l + 1));
            }
        },
        _ => {
            proof {
                lemma_drop_span_none(s, p);
            }
        },
    }
}

} // verus!
