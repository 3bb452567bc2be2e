//! Laws of the `Fuzzy` list as a whole. Its entries form a tree: every
//! directory's descendants (the entries with its path among their parents)
//! sit in one run right after it, and only an expanded directory has any.
//! Where the directory entries handed over are what reading the directory
//! gives, each entry's parents form a chain down to its path and its name
//! is its path's final component. Toggling keeps all of this so, and
//! creating an entry keeps the chains and the names, where the created path
//! lies in the directory it was created in.

use crate::fuzzy::{
    created, target_path, FileKind, top_spacer, collapsed, expanded_with, has_parent_path, nested_spacer, scan_matches, scanned, without_id,
    FuzzModel, ScanEntry,
};
use crate::paths::{path_components, path_file_name, path_parent, same_path_spec};
use crate::seqs::{
    drop_span_where, is_first_where, is_last_where, lemma_drop_span, lemma_drop_span_elements,
    lemma_drop_span_none, splice_at,
};
use vstd::prelude::*;

verus! {

/// The components of each parent of `f`, outermost first.
pub open spec fn parent_keys(f: FuzzModel) -> Seq<Seq<Seq<char>>> {
    f.parents.map_values(|p: Seq<char>| path_components(p))
}

/// The entry at `j` lies under the entry at `a`: one of its parents is the
/// same path as the path of the entry at `a`.
pub open spec fn under(v: Seq<FuzzModel>, a: int, j: int) -> bool {
    parent_keys(v[j]).contains(path_components(v[a].path))
}

/// The entries under the entry at `a` are exactly the `d` entries right
/// after it, and there are none where it is not expanded.
pub open spec fn block(v: Seq<FuzzModel>, a: int, d: int) -> bool {
    &&& 0 <= d
    &&& a + d < v.len()
    &&& forall|j: int| 0 <= j < v.len() ==> (#[trigger] under(v, a, j) <==> a < j <= a + d)
    &&& !v[a].is_expanded ==> d == 0
}

/// The entries under the entry at `a` are a run right after it.
pub open spec fn has_block(v: Seq<FuzzModel>, a: int) -> bool {
    exists|d: int| block(v, a, d)
}

/// No two entries of `v` name the same path, and each entry's descendants
/// sit in one run right after it (none where it is not expanded).
pub open spec fn runs_ok(v: Seq<FuzzModel>) -> bool {
    &&& forall|a: int, b: int|
        0 <= a < v.len() && 0 <= b < v.len() && a != b ==> path_components(#[trigger] v[a].path)
            != path_components(#[trigger] v[b].path)
    &&& forall|a: int| 0 <= a < v.len() ==> #[trigger] has_block(v, a)
}

/// What lies under an entry under `a` lies under `a` too.
pub open spec fn transitive(v: Seq<FuzzModel>) -> bool {
    forall|a: int, j: int, k: int|
        0 <= a < v.len() && 0 <= j < v.len() && 0 <= k < v.len() && #[trigger] under(v, a, j)
            && #[trigger] under(v, j, k) ==> under(v, a, k)
}

/// The entries of `v` form a tree: `runs_ok`, and `under` is transitive.
pub open spec fn tree_ok(v: Seq<FuzzModel>) -> bool {
    runs_ok(v) && transitive(v)
}

/// The directory entries are new to `v`: none names the same path as an
/// entry of `v` or as a parent of one, and no two name the same path.
pub open spec fn fresh_entries(v: Seq<FuzzModel>, entries: Seq<ScanEntry>) -> bool {
    &&& forall|e: int, j: int|
        0 <= e < entries.len() && 0 <= j < v.len() ==> path_components(#[trigger] entries[e].path@)
            != path_components(#[trigger] v[j].path) && !parent_keys(v[j]).contains(
            path_components(entries[e].path@),
        )
    &&& forall|e: int, g: int|
        0 <= e < entries.len() && 0 <= g < entries.len() && e != g ==> path_components(
            #[trigger] entries[e].path@,
        ) != path_components(#[trigger] entries[g].path@)
}

/// `has_parent_path` says, by components, what `under` says.
pub proof fn lemma_has_parent_path_keys(p: Seq<char>, f: FuzzModel)
    ensures
        has_parent_path(p)(f) <==> parent_keys(f).contains(path_components(p)),
{
    if has_parent_path(p)(f) {
        let k = choose|k: int| 0 <= k < f.parents.len() && same_path_spec(#[trigger] f.parents[k], p);
        assert(parent_keys(f)[k] == path_components(p));
    }
    if parent_keys(f).contains(path_components(p)) {
        let k = choose|k: int| 0 <= k < parent_keys(f).len() && parent_keys(f)[k] == path_components(p);
        assert(same_path_spec(f.parents[k], p));
    }
}

/// The position in the list before an expansion at `i` of `n` entries of
/// a position of the list after it that is not one of the new entries.
pub open spec fn before_expand(x: int, i: int, n: int) -> int {
    if x <= i {
        x
    } else {
        x - n
    }
}

/// Expanding a collapsed directory with entries new to the list keeps the
/// runs: the new entries lie under the directory and under what it lies
/// under, right after it, and nothing lies under them; and where `under`
/// was transitive, it stays so.
pub proof fn lemma_expand_keeps_tree(
    v: Seq<FuzzModel>,
    i: int,
    entries: Seq<ScanEntry>,
    out: Seq<FuzzModel>,
)
    requires
        runs_ok(v),
        0 <= i < v.len(),
        !v[i].is_file,
        !v[i].is_expanded,
        fresh_entries(v, entries),
        expanded_with(v, i, entries, out),
    ensures
        runs_ok(out),
        transitive(v) ==> transitive(out),
{
    let item = v[i];
    let n = entries.len() as int;
    let kids = out.subrange(i + 1, i + 1 + n);
    let ik = path_components(item.path);
    assert(has_block(v, i));
    let di = choose|d: int| block(v, i, d);
    assert(di == 0);
    // what each position of `out` holds
    assert forall|x: int| 0 <= x < out.len() && !(i < x <= i + n) implies {
        let o = before_expand(x, i, n);
        &&& 0 <= o < v.len()
        &&& (#[trigger] out[x]).path == v[o].path
        &&& out[x].parents == v[o].parents
        &&& out[x].is_expanded == (o == i || v[o].is_expanded)
    } by {
        if x < i {
            assert(out[x] == v[x]);
        } else if x > i + n {
            assert(out[x] == v[x - n]);
        }
    }
    assert forall|x: int| i < x <= i + n implies {
        &&& (#[trigger] out[x]).path == entries[x - i - 1].path@
        &&& parent_keys(out[x]) == parent_keys(item).push(ik)
        &&& !out[x].is_expanded
    } by {
        let k = x - i - 1;
        assert(out[x] == kids[k]);
        assert(without_id(kids[k]) == scanned(item.spacer + nested_spacer(), item.parents.push(item.path), entries[k]));
        assert(kids[k].parents == without_id(kids[k]).parents);
        assert(kids[k].path == without_id(kids[k]).path);
        assert(kids[k].is_expanded == without_id(kids[k]).is_expanded);
        assert(parent_keys(out[x]) =~= parent_keys(item).push(ik));
    }
    // what lies under what
    assert forall|a: int, j: int|
        0 <= a < out.len() && 0 <= j < out.len() && i < a <= i + n implies !#[trigger] under(out, a, j) by {
        let e = a - i - 1;
        let c = path_components(entries[e].path@);
        assert(out[a].path == entries[e].path@);
        if i < j <= i + n {
            assert(parent_keys(out[j]) == parent_keys(item).push(ik));
            assert(!parent_keys(item).contains(c));
            assert(c != path_components(v[i].path));
            if parent_keys(item).push(ik).contains(c) {
                let k = choose|k: int| 0 <= k < parent_keys(item).push(ik).len() && parent_keys(item).push(ik)[k] == c;
                if k < parent_keys(item).len() {
                    assert(parent_keys(item)[k] == c);
                }
            }
        } else {
            let oj = before_expand(j, i, n);
            assert(out[j].parents == v[oj].parents);
            assert(parent_keys(out[j]) == parent_keys(v[oj]));
            assert(!parent_keys(v[oj]).contains(c));
        }
    }
    assert forall|a: int, j: int|
        0 <= a < out.len() && 0 <= j < out.len() && !(i < a <= i + n) && !(i < j <= i + n) implies #[trigger] under(out, a, j)
            == under(v, before_expand(a, i, n), before_expand(j, i, n)) by {
        let oj = before_expand(j, i, n);
        assert(parent_keys(out[j]) == parent_keys(v[oj]));
    }
    assert forall|a: int, j: int|
        0 <= a < out.len() && !(i < a <= i + n) && i < j <= i + n implies #[trigger] under(out, a, j)
            == (under(v, before_expand(a, i, n), i) || before_expand(a, i, n) == i) by {
        let oa = before_expand(a, i, n);
        let c = path_components(v[oa].path);
        assert(parent_keys(out[j]) == parent_keys(item).push(ik));
        if oa != i {
            assert(c != ik);
        }
        if parent_keys(item).push(ik).contains(c) {
            let k = choose|k: int| 0 <= k < parent_keys(item).push(ik).len() && parent_keys(item).push(ik)[k] == c;
            if k < parent_keys(item).len() {
                assert(parent_keys(item)[k] == c);
            }
        }
        if parent_keys(item).contains(c) {
            let k = choose|k: int| 0 <= k < parent_keys(item).len() && parent_keys(item)[k] == c;
            assert(parent_keys(item).push(ik)[k] == c);
        }
        if oa == i {
            assert(parent_keys(item).push(ik)[parent_keys(item).len() as int] == c);
        }
    }
    // distinct paths
    assert forall|a: int, b: int|
        0 <= a < out.len() && 0 <= b < out.len() && a != b implies path_components(#[trigger] out[a].path)
            != path_components(#[trigger] out[b].path) by {
        let ka = i < a <= i + n;
        let kb = i < b <= i + n;
        if ka && kb {
            assert(path_components(entries[a - i - 1].path@) != path_components(entries[b - i - 1].path@));
        } else if ka {
            assert(path_components(entries[a - i - 1].path@) != path_components(v[before_expand(b, i, n)].path));
        } else if kb {
            assert(path_components(entries[b - i - 1].path@) != path_components(v[before_expand(a, i, n)].path));
        } else {
            assert(before_expand(a, i, n) != before_expand(b, i, n));
        }
    }
    // blocks
    assert forall|a: int| 0 <= a < out.len() implies #[trigger] has_block(out, a) by {
        if i < a <= i + n {
            assert(block(out, a, 0));
        } else if a == i {
            assert forall|j: int| 0 <= j < out.len() implies (#[trigger] under(out, a, j) <==> a < j <= a + n) by {
                if !(i < j <= i + n) {
                    let oj = before_expand(j, i, n);
                    assert(under(v, i, oj) <==> i < oj <= i + di);
                }
            }
            assert(block(out, a, n));
        } else {
            let oa = before_expand(a, i, n);
            assert(has_block(v, oa));
            let da = choose|d: int| block(v, oa, d);
            if under(v, oa, i) {
                assert(oa < i <= oa + da);
                assert(a == oa);
                assert forall|j: int| 0 <= j < out.len() implies (#[trigger] under(out, a, j) <==> a < j <= a + da + n) by {
                    if !(i < j <= i + n) {
                        let oj = before_expand(j, i, n);
                        assert(under(v, oa, oj) <==> oa < oj <= oa + da);
                    }
                }
                assert(v[oa].is_expanded);
                assert(block(out, a, da + n));
            } else {
                assert(!(oa < i <= oa + da));
                assert forall|j: int| 0 <= j < out.len() implies (#[trigger] under(out, a, j) <==> a < j <= a + da) by {
                    if !(i < j <= i + n) {
                        let oj = before_expand(j, i, n);
                        assert(under(v, oa, oj) <==> oa < oj <= oa + da);
                    }
                }
                assert(block(out, a, da));
            }
        }
    }
    // what lies under an entry under `a` lies under `a`
    if transitive(v) {
    assert forall|a: int, j: int, k: int|
        0 <= a < out.len() && 0 <= j < out.len() && 0 <= k < out.len() && #[trigger] under(out, a, j)
            && #[trigger] under(out, j, k) implies under(out, a, k) by {
        let oa = before_expand(a, i, n);
        let oj = before_expand(j, i, n);
        let ok = before_expand(k, i, n);
        if i < k <= i + n {
            if oj != i {
                assert(under(v, oj, i));
                assert(under(v, oa, oj));
                assert(under(v, oa, i));
            } else {
                assert(under(v, oa, i));
            }
        } else {
            assert(under(v, oa, oj));
            assert(under(v, oj, ok));
        }
    }
    }
}

/// The position in the list before a collapse at `i` that removed `d`
/// entries of a position of the list after it.
pub open spec fn before_collapse(x: int, i: int, d: int) -> int {
    if x <= i {
        x
    } else {
        x + d
    }
}

/// Collapsing an entry keeps the runs: what it removes is exactly the run
/// of entries under it; and where `under` was transitive, it stays so.
pub proof fn lemma_collapse_keeps_tree(v: Seq<FuzzModel>, i: int)
    requires
        runs_ok(v),
        0 <= i < v.len(),
    ensures
        runs_ok(collapsed(v, i)),
        transitive(v) ==> transitive(collapsed(v, i)),
{
    if v[i].is_file {
        return;
    }
    let item = v[i];
    let u = v.update(i, FuzzModel { is_expanded: false, children: 0, ..item });
    let p = has_parent_path(item.path);
    assert(has_block(v, i));
    let d = choose|d: int| block(v, i, d);
    assert forall|j: int| 0 <= j < u.len() implies (p(#[trigger] u[j]) <==> under(v, i, j)) by {
        lemma_has_parent_path_keys(item.path, u[j]);
        assert(u[j].parents == v[j].parents);
    }
    let out = collapsed(v, i);
    if d > 0 {
        assert(p(u[i + 1]));
        assert(p(u[i + d]));
        assert(is_first_where(u, p, i + 1));
        assert(is_last_where(u, p, i + d));
        lemma_drop_span(u, p, i + 1, i + d);
    } else {
        assert forall|j: int| 0 <= j < u.len() implies !p(#[trigger] u[j]) by {}
        lemma_drop_span_none(u, p);
        assert(u.take(i + 1) + u.skip(i + d + 1) =~= u);
    }
    assert(out == u.take(i + 1) + u.skip(i + d + 1));
    assert(out.len() == v.len() - d);
    assert forall|x: int| 0 <= x < out.len() implies {
        let o = before_collapse(x, i, d);
        &&& 0 <= o < v.len()
        &&& (#[trigger] out[x]).path == v[o].path
        &&& out[x].parents == v[o].parents
        &&& out[x].is_expanded == (o != i && v[o].is_expanded)
    } by {
        assert(out[x] == u[before_collapse(x, i, d)]);
    }
    assert forall|a: int, j: int| 0 <= a < out.len() && 0 <= j < out.len() implies #[trigger] under(out, a, j)
        == under(v, before_collapse(a, i, d), before_collapse(j, i, d)) by {
        let oj = before_collapse(j, i, d);
        assert(parent_keys(out[j]) == parent_keys(v[oj]));
    }
    assert forall|a: int, b: int|
        0 <= a < out.len() && 0 <= b < out.len() && a != b implies path_components(#[trigger] out[a].path)
            != path_components(#[trigger] out[b].path) by {
        assert(before_collapse(a, i, d) != before_collapse(b, i, d));
    }
    assert forall|a: int| 0 <= a < out.len() implies #[trigger] has_block(out, a) by {
        let oa = before_collapse(a, i, d);
        if a == i {
            assert forall|j: int| 0 <= j < out.len() implies (#[trigger] under(out, a, j) <==> a < j <= a) by {
                let oj = before_collapse(j, i, d);
                assert(under(v, i, oj) <==> i < oj <= i + d);
            }
            assert(block(out, a, 0));
        } else {
            assert(has_block(v, oa));
            let da = choose|e: int| block(v, oa, e);
            if under(v, oa, i) {
                assert(oa < i <= oa + da);
                let nd = if i + d <= oa + da { da - d } else { i - oa };
                assert forall|j: int| 0 <= j < out.len() implies (#[trigger] under(out, a, j) <==> a < j <= a + nd) by {
                    let oj = before_collapse(j, i, d);
                    assert(under(v, oa, oj) <==> oa < oj <= oa + da);
                }
                assert(block(out, a, nd));
            } else {
                assert(!(oa < i <= oa + da));
                if oa > i {
                    assert(oa > i + d);
                }
                assert forall|j: int| 0 <= j < out.len() implies (#[trigger] under(out, a, j) <==> a < j <= a + da) by {
                    let oj = before_collapse(j, i, d);
                    assert(under(v, oa, oj) <==> oa < oj <= oa + da);
                }
                assert(block(out, a, da));
            }
        }
    }
    if transitive(v) {
        assert forall|a: int, j: int, k: int|
            0 <= a < out.len() && 0 <= j < out.len() && 0 <= k < out.len() && #[trigger] under(out, a, j)
                && #[trigger] under(out, j, k) implies under(out, a, k) by {
            assert(under(v, before_collapse(a, i, d), before_collapse(j, i, d)));
            assert(under(v, before_collapse(j, i, d), before_collapse(k, i, d)));
        }
    }
}

/// Toggling an entry keeps the runs (no two entries name the same path,
/// each entry's descendants sit in one run right after it, none where it is
/// collapsed), where an expansion lists entries new to the list; and it
/// keeps `under` transitive where it was.
pub proof fn lemma_toggle_keeps_tree(
    v: Seq<FuzzModel>,
    i: int,
    entries: Seq<ScanEntry>,
    out: Seq<FuzzModel>,
)
    requires
        runs_ok(v),
        0 <= i < v.len(),
        if v[i].is_expanded {
            out == collapsed(v, i)
        } else {
            expanded_with(v, i, entries, out) && fresh_entries(v, entries)
        },
    ensures
        runs_ok(out),
        tree_ok(v) ==> tree_ok(out),
{
    if v[i].is_expanded {
        lemma_collapse_keeps_tree(v, i);
    } else if v[i].is_file {
        assert(out == v);
    } else {
        lemma_expand_keeps_tree(v, i, entries, out);
    }
}

/// The entries that `Fuzzy::new(path, ..)` lists form a tree, where the
/// directory entries name distinct paths other than `path` itself.
pub proof fn lemma_new_tree(path: Seq<char>, entries: Seq<ScanEntry>, list: Seq<FuzzModel>)
    requires
        scan_matches(top_spacer(), seq![path], entries, list),
        forall|e: int|
            0 <= e < entries.len() ==> path_components(#[trigger] entries[e].path@) != path_components(path),
        forall|e: int, g: int|
            0 <= e < entries.len() && 0 <= g < entries.len() && e != g ==> path_components(
                #[trigger] entries[e].path@,
            ) != path_components(#[trigger] entries[g].path@),
    ensures
        tree_ok(list),
{
    assert forall|x: int| 0 <= x < list.len() implies {
        &&& (#[trigger] list[x]).path == entries[x].path@
        &&& parent_keys(list[x]) == seq![path_components(path)]
        &&& !list[x].is_expanded
    } by {
        assert(without_id(list[x]) == scanned(top_spacer(), seq![path], entries[x]));
        assert(list[x].parents == without_id(list[x]).parents);
        assert(list[x].path == without_id(list[x]).path);
        assert(list[x].is_expanded == without_id(list[x]).is_expanded);
        assert(parent_keys(list[x]) =~= seq![path_components(path)]);
    }
    assert forall|a: int, j: int| 0 <= a < list.len() && 0 <= j < list.len() implies !#[trigger] under(list, a, j) by {
        assert(path_components(entries[a].path@) != path_components(path));
        assert(seq![path_components(path)][0] == path_components(path));
    }
    assert forall|a: int| 0 <= a < list.len() implies #[trigger] has_block(list, a) by {
        assert(block(list, a, 0));
    }
    assert forall|a: int, b: int|
        0 <= a < list.len() && 0 <= b < list.len() && a != b implies path_components(#[trigger] list[a].path)
            != path_components(#[trigger] list[b].path) by {}
}

/// The path `b` lies strictly below the path `a`: the components of `a`
/// are a proper prefix of those of `b` (so the two differ).
pub open spec fn strictly_below(b: Seq<char>, a: Seq<char>) -> bool {
    let ca = path_components(a);
    let cb = path_components(b);
    ca.len() < cb.len() && cb.take(ca.len() as int) == ca
}

/// Lying strictly below is transitive.
pub proof fn lemma_below_trans(c: Seq<char>, b: Seq<char>, a: Seq<char>)
    requires
        strictly_below(c, b),
        strictly_below(b, a),
    ensures
        strictly_below(c, a),
{
    let ca = path_components(a);
    let cb = path_components(b);
    let cc = path_components(c);
    assert(cc.take(ca.len() as int) =~= cb.take(ca.len() as int));
}

/// `p` is a path in the directory `dir`: its parent is `dir` (by
/// components) and it lies strictly below `dir`.
pub open spec fn lies_in(p: Seq<char>, dir: Seq<char>) -> bool {
    &&& path_parent(p) matches Some(q) && same_path_spec(q, dir)
    &&& strictly_below(p, dir)
}

/// What reading the directory `dir` gives: every entry's path is in `dir`.
pub open spec fn entries_of(dir: Seq<char>, entries: Seq<ScanEntry>) -> bool {
    forall|e: int| 0 <= e < entries.len() ==> lies_in(#[trigger] entries[e].path@, dir)
}

/// The parents of an entry form a chain down to its path: each parent
/// after the first has the one before it as its parent and lies strictly
/// below every one before it, the entry's path has the last one as its
/// parent and lies strictly below every one of them, and that parent is
/// its direct parent.
pub open spec fn chained(f: FuzzModel) -> bool {
    &&& f.parents.len() >= 1
    &&& forall|k: int|
        0 <= k < f.parents.len() - 1 ==> (path_parent(#[trigger] f.parents[k + 1]) matches Some(q)
            && same_path_spec(q, f.parents[k]))
    &&& forall|k: int, m: int|
        0 <= k < m < f.parents.len() ==> strictly_below(#[trigger] f.parents[m], #[trigger] f.parents[k])
    &&& forall|k: int| 0 <= k < f.parents.len() ==> strictly_below(f.path, #[trigger] f.parents[k])
    &&& path_parent(f.path) matches Some(q) && same_path_spec(q, f.parents.last())
    &&& f.direct_parent == path_parent(f.path)->0
}

/// Every entry of `v` is chained.
pub open spec fn chain_ok(v: Seq<FuzzModel>) -> bool {
    forall|j: int| 0 <= j < v.len() ==> chained(#[trigger] v[j])
}

/// An entry whose parents are those of a chained entry `f` followed by
/// `f`'s path, with a path in `f`'s path, is chained.
pub proof fn lemma_chained_child(f: FuzzModel, c: FuzzModel)
    requires
        chained(f),
        c.parents == f.parents.push(f.path),
        lies_in(c.path, f.path),
        c.direct_parent == path_parent(c.path)->0,
    ensures
        chained(c),
{
    let ps = c.parents;
    let n = f.parents.len() as int;
    assert(ps.last() == f.path);
    assert forall|k: int| 0 <= k < ps.len() - 1 implies (path_parent(#[trigger] ps[k + 1]) matches Some(q)
        && same_path_spec(q, ps[k])) by {
        if k + 1 < n {
            assert(ps[k + 1] == f.parents[k + 1]);
            assert(ps[k] == f.parents[k]);
        } else {
            assert(ps[k + 1] == f.path);
            assert(ps[k] == f.parents.last());
        }
    }
    assert forall|k: int, m: int| 0 <= k < m < ps.len() implies strictly_below(#[trigger] ps[m], #[trigger] ps[k]) by {
        assert(ps[k] == f.parents[k]);
        if m < n {
            assert(ps[m] == f.parents[m]);
        } else {
            assert(ps[m] == f.path);
        }
    }
    assert forall|k: int| 0 <= k < ps.len() implies strictly_below(c.path, #[trigger] ps[k]) by {
        if k < n {
            assert(ps[k] == f.parents[k]);
            lemma_below_trans(c.path, f.path, f.parents[k]);
        } else {
            assert(ps[k] == f.path);
        }
    }
}

/// The entries that `Fuzzy::new(path, ..)` lists from what reading `path`
/// gave are chained.
pub proof fn lemma_new_chained(path: Seq<char>, entries: Seq<ScanEntry>, list: Seq<FuzzModel>)
    requires
        scan_matches(top_spacer(), seq![path], entries, list),
        entries_of(path, entries),
    ensures
        chain_ok(list),
{
    assert forall|j: int| 0 <= j < list.len() implies chained(#[trigger] list[j]) by {
        let w = without_id(list[j]);
        assert(w == scanned(top_spacer(), seq![path], entries[j]));
        assert(list[j].parents == w.parents && list[j].path == w.path && list[j].direct_parent == w.direct_parent);
        assert(lies_in(entries[j].path@, path));
        assert(list[j].parents.last() == path);
        assert forall|k: int| 0 <= k < list[j].parents.len() implies strictly_below(
            list[j].path,
            #[trigger] list[j].parents[k],
        ) by {
            assert(list[j].parents[k] == path);
        }
    }
}

/// Expanding a directory with what reading it gave keeps the entries
/// chained.
pub proof fn lemma_expand_keeps_chain(
    v: Seq<FuzzModel>,
    i: int,
    entries: Seq<ScanEntry>,
    out: Seq<FuzzModel>,
)
    requires
        chain_ok(v),
        0 <= i < v.len(),
        entries_of(v[i].path, entries),
        expanded_with(v, i, entries, out),
    ensures
        chain_ok(out),
{
    if !v[i].is_file {
        let item = v[i];
        let n = entries.len() as int;
        let kids = out.subrange(i + 1, i + 1 + n);
        assert(chained(item));
        assert forall|j: int| 0 <= j < out.len() implies chained(#[trigger] out[j]) by {
            if j < i {
                assert(out[j] == v[j]);
            } else if j == i {
                assert(out[j].parents == item.parents && out[j].path == item.path
                    && out[j].direct_parent == item.direct_parent);
            } else if j <= i + n {
                let k = j - i - 1;
                let w = without_id(kids[k]);
                assert(out[j] == kids[k]);
                assert(w == scanned(item.spacer + nested_spacer(), item.parents.push(item.path), entries[k]));
                assert(kids[k].parents == w.parents && kids[k].path == w.path
                    && kids[k].direct_parent == w.direct_parent);
                assert(lies_in(entries[k].path@, item.path));
                lemma_chained_child(item, kids[k]);
            } else {
                assert(out[j] == v[j - n]);
            }
        }
    }
}

/// Collapsing an entry keeps the entries chained.
pub proof fn lemma_collapse_keeps_chain(v: Seq<FuzzModel>, i: int)
    requires
        chain_ok(v),
        0 <= i < v.len(),
    ensures
        chain_ok(collapsed(v, i)),
{
    if !v[i].is_file {
        let u = v.update(i, FuzzModel { is_expanded: false, children: 0, ..v[i] });
        let p = has_parent_path(v[i].path);
        assert(chain_ok(u)) by {
            assert forall|j: int| 0 <= j < u.len() implies chained(#[trigger] u[j]) by {
                assert(chained(v[j]));
            }
        }
        lemma_drop_span_elements(u, p);
        let d = drop_span_where(u, p);
        assert forall|j: int| 0 <= j < d.len() implies chained(#[trigger] d[j]) by {
            assert(u.contains(d[j]));
            let k = choose|k: int| 0 <= k < u.len() && u[k] == d[j];
            assert(chained(u[k]));
        }
    }
}

/// The directory that `create_fuzzy` creates in next to `sel`: `sel`'s
/// direct parent where it is a file, `sel` itself otherwise.
pub open spec fn creation_dir_of(sel: FuzzModel) -> Seq<char> {
    if sel.is_file {
        sel.direct_parent
    } else {
        sel.path
    }
}

/// Creating an entry keeps the entries chained, where the created path
/// could be opened and lies in the directory it was created in.
pub proof fn lemma_create_keeps_chain(
    list: Seq<FuzzModel>,
    i: int,
    name: Seq<char>,
    meta: Option<FileKind>,
    c: FuzzModel,
)
    requires
        chain_ok(list),
        0 <= i < list.len(),
        meta is Some,
        lies_in(target_path(list[i], name), creation_dir_of(list[i])),
        without_id(c) == created(list[i], name, meta),
    ensures
        chain_ok(splice_at(list, i + 1, seq![c])),
{
    let sel = list[i];
    let t = target_path(sel, name);
    let out = splice_at(list, i + 1, seq![c]);
    assert(chained(sel));
    assert(c.parents == without_id(c).parents && c.path == without_id(c).path
        && c.direct_parent == without_id(c).direct_parent);
    assert(c.path == t);
    assert(c.direct_parent == path_parent(t)->0);
    if sel.is_file {
        assert(c.parents == sel.parents);
        let last = sel.parents.last();
        assert(path_components(sel.direct_parent) == path_components(last));
        assert(strictly_below(t, last));
        assert forall|k: int| 0 <= k < c.parents.len() implies strictly_below(c.path, #[trigger] c.parents[k]) by {
            if k < c.parents.len() - 1 {
                assert(strictly_below(last, sel.parents[k]));
                lemma_below_trans(t, last, sel.parents[k]);
            }
        }
        assert(chained(c));
    } else {
        lemma_chained_child(sel, c);
    }
    assert forall|j: int| 0 <= j < out.len() implies chained(#[trigger] out[j]) by {
        if j <= i {
            assert(out[j] == list[j]);
        } else if j == i + 1 {
            assert(out[j] == c);
        } else {
            assert(out[j] == list[j - 1]);
        }
    }
}

/// Each directory entry's name is the final component of its path.
pub open spec fn entries_named(entries: Seq<ScanEntry>) -> bool {
    forall|e: int|
        0 <= e < entries.len() ==> path_file_name(#[trigger] entries[e].path@) == Some(entries[e].name@)
}

/// An entry's name is the final component of its path.
pub open spec fn named(f: FuzzModel) -> bool {
    path_file_name(f.path) == Some(f.name)
}

/// Every entry of `v` is named after its path.
pub open spec fn names_ok(v: Seq<FuzzModel>) -> bool {
    forall|j: int| 0 <= j < v.len() ==> named(#[trigger] v[j])
}

/// The entries that `Fuzzy::new` lists are named after their paths, where
/// the directory entries are.
pub proof fn lemma_new_named(path: Seq<char>, entries: Seq<ScanEntry>, list: Seq<FuzzModel>)
    requires
        scan_matches(top_spacer(), seq![path], entries, list),
        entries_named(entries),
    ensures
        names_ok(list),
{
    assert forall|j: int| 0 <= j < list.len() implies named(#[trigger] list[j]) by {
        let w = without_id(list[j]);
        assert(w == scanned(top_spacer(), seq![path], entries[j]));
        assert(list[j].path == w.path && list[j].name == w.name);
    }
}

/// Expanding a directory with directory entries named after their paths
/// keeps every entry named after its path.
pub proof fn lemma_expand_keeps_names(
    v: Seq<FuzzModel>,
    i: int,
    entries: Seq<ScanEntry>,
    out: Seq<FuzzModel>,
)
    requires
        names_ok(v),
        entries_named(entries),
        expanded_with(v, i, entries, out),
    ensures
        names_ok(out),
{
    if 0 <= i < v.len() && !v[i].is_file {
        let item = v[i];
        let n = entries.len() as int;
        let kids = out.subrange(i + 1, i + 1 + n);
        assert forall|j: int| 0 <= j < out.len() implies named(#[trigger] out[j]) by {
            if j < i {
                assert(out[j] == v[j]);
            } else if j == i {
                assert(named(item));
                assert(out[j].path == item.path && out[j].name == item.name);
            } else if j <= i + n {
                let k = j - i - 1;
                let w = without_id(kids[k]);
                assert(out[j] == kids[k]);
                assert(w == scanned(item.spacer + nested_spacer(), item.parents.push(item.path), entries[k]));
                assert(kids[k].path == w.path && kids[k].name == w.name);
            } else {
                assert(out[j] == v[j - n]);
            }
        }
    }
}

/// Collapsing an entry keeps every entry named after its path.
pub proof fn lemma_collapse_keeps_names(v: Seq<FuzzModel>, i: int)
    requires
        names_ok(v),
        0 <= i < v.len(),
    ensures
        names_ok(collapsed(v, i)),
{
    if !v[i].is_file {
        let u = v.update(i, FuzzModel { is_expanded: false, children: 0, ..v[i] });
        let p = has_parent_path(v[i].path);
        assert(names_ok(u)) by {
            assert forall|j: int| 0 <= j < u.len() implies named(#[trigger] u[j]) by {
                assert(named(v[j]));
            }
        }
        lemma_drop_span_elements(u, p);
        let d = drop_span_where(u, p);
        assert forall|j: int| 0 <= j < d.len() implies named(#[trigger] d[j]) by {
            assert(u.contains(d[j]));
            let k = choose|k: int| 0 <= k < u.len() && u[k] == d[j];
            assert(named(u[k]));
        }
    }
}

/// Creating an entry keeps every entry named after its path, where the
/// created path could be opened and has a final component.
pub proof fn lemma_create_keeps_names(
    list: Seq<FuzzModel>,
    i: int,
    name: Seq<char>,
    meta: Option<FileKind>,
    c: FuzzModel,
)
    requires
        names_ok(list),
        0 <= i < list.len(),
        meta is Some,
        path_file_name(target_path(list[i], name)) is Some,
        without_id(c) == created(list[i], name, meta),
    ensures
        names_ok(splice_at(list, i + 1, seq![c])),
{
    let out = splice_at(list, i + 1, seq![c]);
    assert(c.path == without_id(c).path && c.name == without_id(c).name);
    assert(named(c));
    assert forall|j: int| 0 <= j < out.len() implies named(#[trigger] out[j]) by {
        if j <= i {
            assert(out[j] == list[j]);
        } else if j == i + 1 {
            assert(out[j] == c);
        } else {
            assert(out[j] == list[j - 1]);
        }
    }
}

} // verus!
