//! Opening the project picker: recent projects first, in recency order, then
//! every other repository alphabetically.

use vstd::prelude::*;
use crate::app::{App, AppView, Picker, Proj, ProjView};
use crate::order::{seq_lt, str_lt, lemma_seq_lt_irrefl, lemma_seq_lt_trans, lemma_seq_lt_total, lemma_seq_lt_asym};
use crate::text::str_eq;

verus! {

/// Where `path` stands among the recent projects (`i64::MAX` when it is not one).
pub open spec fn rank(recents: Seq<Seq<char>>, path: Seq<char>) -> int {
    if exists|i: int| 0 <= i < recents.len() && recents[i] == path {
        choose|i: int| 0 <= i < recents.len() && recents[i] == path && forall|j: int| 0 <= j < i ==> recents[j] != path
    } else {
        i64::MAX as int
    }
}

/// `a` is listed before `b`: a more recent project first, then by path.
pub open spec fn proj_lt(recents: Seq<Seq<char>>, a: ProjView, b: ProjView) -> bool {
    let ra = rank(recents, a.path);
    let rb = rank(recents, b.path);
    ra < rb || (ra == rb && seq_lt(a.path, b.path))
}

/// No project is listed after one it sorts before.
pub open spec fn sorted_for(recents: Seq<Seq<char>>, s: Seq<ProjView>) -> bool {
    forall|i: int, j: int| 0 <= i < j < s.len() ==> !proj_lt(recents, #[trigger] s[j], #[trigger] s[i])
}

pub proof fn lemma_proj_lt_asym(recents: Seq<Seq<char>>, a: ProjView, b: ProjView)
    requires
        proj_lt(recents, a, b),
    ensures
        !proj_lt(recents, b, a),
{
    if rank(recents, a.path) == rank(recents, b.path) {
        lemma_seq_lt_asym(a.path, b.path);
    }
}

/// Not sorting before is transitive.
pub proof fn lemma_proj_not_lt_trans(recents: Seq<Seq<char>>, x: ProjView, a: ProjView, b: ProjView)
    requires
        !proj_lt(recents, x, a),
        !proj_lt(recents, a, b),
    ensures
        !proj_lt(recents, x, b),
{
    let rx = rank(recents, x.path);
    let ra = rank(recents, a.path);
    let rb = rank(recents, b.path);
    if proj_lt(recents, x, b) {
        if rx == ra && ra == rb {
            lemma_seq_lt_total(x.path, a.path);
            lemma_seq_lt_total(a.path, b.path);
            if x.path == a.path {
            } else if seq_lt(a.path, x.path) {
                if a.path == b.path {
                    lemma_seq_lt_asym(a.path, x.path);
                } else {
                    lemma_seq_lt_trans(b.path, a.path, x.path);
                    lemma_seq_lt_asym(b.path, x.path);
                }
            }
        }
    }
}

/// Below any occurrence of `path` there is a first one.
pub proof fn lemma_first_occurrence(recents: Seq<Seq<char>>, path: Seq<char>, w: int)
    requires
        0 <= w < recents.len(),
        recents[w] == path,
    ensures
        exists|i: int| 0 <= i < recents.len() && recents[i] == path && forall|j: int| 0 <= j < i ==> recents[j] != path,
    decreases w,
{
    if exists|j: int| 0 <= j < w && recents[j] == path {
        let j = choose|j: int| 0 <= j < w && recents[j] == path;
        lemma_first_occurrence(recents, path, j);
    }
}

/// A recent project's rank is the position of its first occurrence in the
/// recents, so it is no later than any position where it occurs.
pub proof fn lemma_rank_position(recents: Seq<Seq<char>>, i: int)
    requires
        0 <= i < recents.len(),
    ensures
        0 <= rank(recents, recents[i]) <= i,
        (forall|k: int| 0 <= k < i ==> recents[k] != recents[i]) ==> rank(recents, recents[i]) == i,
{
    lemma_first_occurrence(recents, recents[i], i);
    let w = choose|x: int| 0 <= x < recents.len() && recents[x] == recents[i] && forall|j: int| 0 <= j < x ==> recents[j] != recents[i];
    if w > i {
        assert(recents[i] != recents[i]);
    }
}

/// The picker surfaces recents in recency order: when the project at `a`
/// shows the `i`-th recent path and the project at `b` the `j`-th, with
/// `i < j` and the `j`-th not appearing earlier in the recents, `a` comes
/// before `b`.
pub proof fn lemma_recency_order(recents: Seq<Seq<char>>, s: Seq<ProjView>)
    requires
        sorted_for(recents, s),
    ensures
        forall|a: int, b: int, i: int, j: int|
            #![trigger s[a], s[b], recents[i], recents[j]]
            0 <= a < s.len() && 0 <= b < s.len() && 0 <= i < j < recents.len()
            && s[a].path == recents[i] && s[b].path == recents[j]
            && (forall|k: int| 0 <= k < j ==> recents[k] != recents[j])
            ==> a < b,
{
    assert forall|a: int, b: int, i: int, j: int|
        #![trigger s[a], s[b], recents[i], recents[j]]
        0 <= a < s.len() && 0 <= b < s.len() && 0 <= i < j < recents.len()
        && s[a].path == recents[i] && s[b].path == recents[j]
        && (forall|k: int| 0 <= k < j ==> recents[k] != recents[j])
        implies a < b by {
        lemma_rank_position(recents, i);
        lemma_rank_position(recents, j);
        assert(proj_lt(recents, s[a], s[b]));
        if b < a {
            assert(!proj_lt(recents, s[a], s[b]));
        } else if a == b {
            assert(recents[i] == recents[j]);
        }
    }
}

/// Where `path` stands among the recent projects (`i64::MAX` when it is not one).
fn rank_of(recents: &Vec<String>, path: &str) -> (r: i64)
    requires
        recents@.len() < i64::MAX,
    ensures
        r as int == rank(recents@.map_values(|s: String| s@), path@),
{
    let ghost rv = recents@.map_values(|s: String| s@);
    let mut i: usize = 0;
    while i < recents.len()
        invariant
            rv == recents@.map_values(|s: String| s@),
            recents@.len() < i64::MAX,
            i <= recents@.len(),
            forall|j: int| 0 <= j < i ==> rv[j] != path@,
        decreases recents.len() - i,
    {
        if str_eq(recents[i].as_str(), path) {
            proof {
                lemma_first_occurrence(rv, path@, i as int);
                let w = choose|x: int| 0 <= x < rv.len() && rv[x] == path@ && forall|j: int| 0 <= j < x ==> rv[j] != path@;
                assert(rv[i as int] == path@);
                if w < i {
                } else if w > i {
                }
            }
            return i as i64;
        }
        i = i + 1;
    }
    i64::MAX
}

/// Whether `x` (of rank `rx`) is listed before `y`.
fn before_in_order(recents: &Vec<String>, rx: i64, x: &Proj, y: &Proj) -> (r: bool)
    requires
        recents@.len() < i64::MAX,
        rx as int == rank(recents@.map_values(|s: String| s@), x@.path),
    ensures
        r == proj_lt(recents@.map_values(|s: String| s@), x@, y@),
{
    let ry = rank_of(recents, y.path.as_str());
    rx < ry || (rx == ry && str_lt(x.path.as_str(), y.path.as_str()))
}

fn copy_proj(p: &Proj) -> (c: Proj)
    ensures
        c@ == p@,
{
    Proj { path: p.path.clone(), abs: p.abs.clone(), branch: p.branch.clone() }
}


/// Where the scan stopped, everything before sorts no later than `x`.
proof fn lemma_before_insert_point(rv: Seq<Seq<char>>, ov: Seq<ProjView>, p: int, x: ProjView)
    requires
        0 <= p <= ov.len(),
        sorted_for(rv, ov),
        p > 0 ==> !proj_lt(rv, x, ov[p - 1]),
    ensures
        forall|k: int| 0 <= k < p ==> !proj_lt(rv, x, #[trigger] ov[k]),
{
    assert forall|k: int| 0 <= k < p implies !proj_lt(rv, x, #[trigger] ov[k]) by {
        if k < p - 1 {
            assert(!proj_lt(rv, ov[p - 1], ov[k]));
            lemma_proj_not_lt_trans(rv, x, ov[p - 1], ov[k]);
        }
    }
}

/// Inserting `x` where everything before sorts no later and everything after
/// sorts after keeps the order.
proof fn lemma_insert_sorted(rv: Seq<Seq<char>>, ov: Seq<ProjView>, p: int, x: ProjView)
    requires
        0 <= p <= ov.len(),
        sorted_for(rv, ov),
        forall|k: int| 0 <= k < p ==> !proj_lt(rv, x, #[trigger] ov[k]),
        forall|k: int| p <= k < ov.len() ==> proj_lt(rv, x, #[trigger] ov[k]),
    ensures
        sorted_for(rv, ov.insert(p, x)),
{
    let nv = ov.insert(p, x);
    assert forall|a: int, b: int| 0 <= a < b < nv.len() implies !proj_lt(rv, #[trigger] nv[b], #[trigger] nv[a]) by {
        if b < p {
        } else if b == p {
        } else if a < p {
            assert(nv[b] == ov[b - 1]);
        } else if a == p {
            assert(nv[b] == ov[b - 1]);
            lemma_proj_lt_asym(rv, x, ov[b - 1]);
        } else {
            assert(nv[b] == ov[b - 1]);
            assert(nv[a] == ov[a - 1]);
        }
    }
}

/// Inserting `x` adds `x` to the multiset.
proof fn lemma_insert_multiset(ov: Seq<ProjView>, p: int, x: ProjView)
    requires
        0 <= p <= ov.len(),
    ensures
        ov.insert(p, x).to_multiset() == ov.to_multiset().insert(x),
{
    broadcast use vstd::seq_lib::group_to_multiset_ensures;
    assert(ov =~= ov.take(p) + ov.skip(p));
    assert(ov.insert(p, x) =~= ov.take(p).push(x) + ov.skip(p));
    vstd::seq_lib::lemma_multiset_commutative(ov.take(p).push(x), ov.skip(p));
    vstd::seq_lib::lemma_multiset_commutative(ov.take(p), ov.skip(p));
    assert(ov.insert(p, x).to_multiset() =~= ov.to_multiset().insert(x));
}

/// The projects shown at display path `q`.
pub open spec fn at_path(q: Seq<char>) -> spec_fn(ProjView) -> bool {
    |p: ProjView| p.path == q
}

/// Filtering a sequence with `x` inserted at `p`: the part before, then `x`
/// when it passes, then the part after.
proof fn lemma_filter_insert<A>(s: Seq<A>, p: int, x: A, f: spec_fn(A) -> bool)
    requires
        0 <= p <= s.len(),
    ensures
        s.insert(p, x).filter(f) == (if f(x) { s.take(p).filter(f).push(x) } else { s.take(p).filter(f) }) + s.skip(p).filter(f),
        s.filter(f) == s.take(p).filter(f) + s.skip(p).filter(f),
{
    assert(s =~= s.take(p) + s.skip(p));
    assert(s.insert(p, x) =~= s.take(p).push(x) + s.skip(p));
    Seq::filter_distributes_over_add(s.take(p), s.skip(p), f);
    Seq::filter_distributes_over_add(s.take(p).push(x), s.skip(p), f);
    s.take(p).lemma_filter_push(x, f);
}

/// Filtering keeps nothing when nothing passes.
proof fn lemma_filter_none<A>(s: Seq<A>, f: spec_fn(A) -> bool)
    requires
        forall|k: int| 0 <= k < s.len() ==> !f(#[trigger] s[k]),
    ensures
        s.filter(f) =~= Seq::<A>::empty(),
    decreases s.len(),
{
    if s.len() > 0 {
        let t = s.drop_last();
        assert(s =~= t.push(s.last()));
        assert forall|k: int| 0 <= k < t.len() implies !f(#[trigger] t[k]) by {
            assert(t[k] == s[k]);
        }
        lemma_filter_none(t, f);
        t.lemma_filter_push(s.last(), f);
    }
}

/// Two projects where one sorts before the other do not share a display path.
proof fn lemma_lt_other_path(rv: Seq<Seq<char>>, a: ProjView, b: ProjView)
    requires
        proj_lt(rv, a, b),
    ensures
        b.path != a.path,
{
    lemma_seq_lt_irrefl(a.path);
}

/// The projects in picker order: every one of `found` (as a multiset), sorted
/// so that recent ones come first, in recency order, then the rest by path;
/// projects that share a display path keep the order they were found in.
pub fn sort_projects(found: &Vec<Proj>, recents: &Vec<String>) -> (out: Vec<Proj>)
    requires
        recents@.len() < i64::MAX,
    ensures
        out@.map_values(|p: Proj| p@).to_multiset() == found@.map_values(|p: Proj| p@).to_multiset(),
        sorted_for(recents@.map_values(|s: String| s@), out@.map_values(|p: Proj| p@)),
        forall|q: Seq<char>| out@.map_values(|p: Proj| p@).filter(#[trigger] at_path(q)) == found@.map_values(|p: Proj| p@).filter(at_path(q)),
        ({
            let s = out@.map_values(|p: Proj| p@);
            let r = recents@.map_values(|x: String| x@);
            forall|a: int, b: int, i: int, j: int|
                #![trigger s[a], s[b], r[i], r[j]]
                0 <= a < s.len() && 0 <= b < s.len() && 0 <= i < j < r.len()
                && s[a].path == r[i] && s[b].path == r[j]
                && (forall|k: int| 0 <= k < j ==> r[k] != r[j])
                ==> a < b
        }),
{
    let ghost rv = recents@.map_values(|s: String| s@);
    let ghost fv = found@.map_values(|p: Proj| p@);
    let mut out: Vec<Proj> = Vec::new();
    let mut i: usize = 0;
    assert(out@.map_values(|p: Proj| p@) =~= Seq::<ProjView>::empty());
    assert(fv.take(0) =~= Seq::<ProjView>::empty());
    while i < found.len()
        invariant
            recents@.len() < i64::MAX,
            rv == recents@.map_values(|s: String| s@),
            fv == found@.map_values(|p: Proj| p@),
            i <= found@.len(),
            out@.map_values(|p: Proj| p@).to_multiset() == fv.take(i as int).to_multiset(),
            sorted_for(rv, out@.map_values(|p: Proj| p@)),
            forall|q: Seq<char>| out@.map_values(|p: Proj| p@).filter(#[trigger] at_path(q)) == fv.take(i as int).filter(at_path(q)),
        decreases found.len() - i,
    {
        let x = copy_proj(&found[i]);
        let rx = rank_of(recents, x.path.as_str());
        let ghost ov = out@.map_values(|p: Proj| p@);
        let mut p: usize = out.len();
        while p > 0 && before_in_order(recents, rx, &x, &out[p - 1])
            invariant
                recents@.len() < i64::MAX,
                rv == recents@.map_values(|s: String| s@),
                ov == out@.map_values(|p: Proj| p@),
                rx as int == rank(rv, x@.path),
                p <= ov.len(),
                forall|k: int| p <= k < ov.len() ==> proj_lt(rv, x@, #[trigger] ov[k]),
            decreases p,
        {
            p = p - 1;
        }
        proof {
            lemma_before_insert_point(rv, ov, p as int, x@);
        }
        let ghost xv = x@;
        out.insert(p, x);
        proof {
            let nv = out@.map_values(|p: Proj| p@);
            assert(nv =~= ov.insert(p as int, xv));
            lemma_insert_sorted(rv, ov, p as int, xv);
            lemma_insert_multiset(ov, p as int, xv);
            assert(fv.take(i + 1) =~= fv.take(i as int).push(xv));
            assert forall|q: Seq<char>| nv.filter(#[trigger] at_path(q)) == fv.take(i + 1).filter(at_path(q)) by {
                let f = at_path(q);
                lemma_filter_insert(ov, p as int, xv, f);
                fv.take(i as int).lemma_filter_push(xv, f);
                if xv.path == q {
                    assert forall|k: int| 0 <= k < ov.skip(p as int).len() implies !f(#[trigger] ov.skip(p as int)[k]) by {
                        assert(ov.skip(p as int)[k] == ov[p + k]);
                        lemma_lt_other_path(rv, xv, ov[p + k]);
                    }
                    lemma_filter_none(ov.skip(p as int), f);
                    assert(ov.filter(f) =~= ov.take(p as int).filter(f));
                }
            }
            broadcast use vstd::seq_lib::group_to_multiset_ensures;
        }
        i = i + 1;
    }
    proof {
        assert(fv.take(found@.len() as int) =~= fv);
        lemma_recency_order(rv, out@.map_values(|p: Proj| p@));
    }
    out
}

/// The indices `0..n`.
pub open spec fn all_indices(n: nat) -> Seq<usize> {
    Seq::new(n, |i: int| i as usize)
}

impl App {
    /// open_picker opens the project picker over `found` (the repositories
    /// scanned), given the display paths of the recent projects: recents
    /// first (in recency order), then the rest alphabetically, every one
    /// listed, the query empty and the cursor on the first.
    pub fn open_picker(&mut self, found: Vec<Proj>, recents: Vec<String>)
        requires
            recents@.len() < i64::MAX,
        ensures
            final(self)@ == (AppView { picker: final(self)@.picker, ..old(self)@ }),
            final(self)@.picker matches Some(p) && {
                &&& p.query == Seq::<char>::empty()
                &&& p.all.to_multiset() == found@.map_values(|p: Proj| p@).to_multiset()
                &&& sorted_for(recents@.map_values(|s: String| s@), p.all)
                &&& forall|q: Seq<char>| p.all.filter(#[trigger] at_path(q)) == found@.map_values(|p: Proj| p@).filter(at_path(q))
                &&& p.results == all_indices(p.all.len())
                &&& p.cursor == 0
                &&& p.recent == recents@.map_values(|s: String| s@)
                &&& p.wf()
            },
    {
        let all = sort_projects(&found, &recents);
        let mut results: Vec<usize> = Vec::new();
        let mut i: usize = 0;
        while i < all.len()
            invariant
                i <= all@.len(),
                results@ == all_indices(i as nat),
            decreases all.len() - i,
        {
            results.push(i);
            i = i + 1;
            assert(results@ =~= all_indices(i as nat));
        }
        self.picker = Some(Picker { query: String::new(), all, results, cursor: 0, recent: recents });
    }
}

} // verus!
