//! Dependency resolution: a build order consistent with the import edges,
//! and, for each step, whether any later step depends on it.
//!
//! The algorithm works in waves: each pass places every step all of whose
//! imports are already placed; a pass that places nothing while steps remain
//! reports the remaining steps as a cycle instead of looping forever.

use vstd::prelude::*;

use crate::config::{
    has_step, imports_of_scripts, spec_index_of, wf_graph, Build, BuildScript, Config,
};
use crate::error::BuildError;

verus! {

broadcast use vstd::seq_lib::lemma_seq_contains_after_push;

// ---------------------------------------------------------------------------
// Index-level model: `deps[i]` lists the indices of the steps step `i`
// imports, in declaration order.
// ---------------------------------------------------------------------------

/// Every listed dependency index is a step index.
pub open spec fn deps_wf(deps: Seq<Seq<usize>>) -> bool {
    forall|i: int, k: int|
        0 <= i < deps.len() && 0 <= k < deps[i].len() ==> (#[trigger] deps[i][k]) < deps.len()
}

/// `ord` is a build order over step indices: a permutation of the steps in
/// which every step stands strictly after each step it imports.
pub open spec fn valid_order(deps: Seq<Seq<usize>>, ord: Seq<usize>) -> bool {
    &&& ord.len() == deps.len()
    &&& ord.no_duplicates()
    &&& (forall|k: int| 0 <= k < ord.len() ==> (#[trigger] ord[k]) < deps.len())
    &&& (forall|i: int| 0 <= i < deps.len() ==> #[trigger] ord.contains(i as usize))
    &&& (forall|k: int, e: usize|
        0 <= k < ord.len() && (#[trigger] deps[ord[k] as int].contains(e)) ==> exists|j: int|
            0 <= j < k && ord[j] == e)
}

/// How many entries of a boolean sequence are set.
pub open spec fn count_true(s: Seq<bool>) -> int
    decreases s.len(),
{
    if s.len() == 0 {
        0
    } else {
        count_true(s.drop_last()) + if s.last() {
            1int
        } else {
            0int
        }
    }
}

proof fn lemma_count_true_all_false(s: Seq<bool>)
    requires
        forall|i: int| 0 <= i < s.len() ==> !s[i],
    ensures
        count_true(s) == 0,
    decreases s.len(),
{
    if s.len() > 0 {
        lemma_count_true_all_false(s.drop_last());
    }
}

proof fn lemma_count_true_update(s: Seq<bool>, i: int)
    requires
        0 <= i < s.len(),
        !s[i],
    ensures
        count_true(s.update(i, true)) == count_true(s) + 1,
    decreases s.len(),
{
    if i == s.len() - 1 {
        assert(s.update(i, true).drop_last() =~= s.drop_last());
    } else {
        lemma_count_true_update(s.drop_last(), i);
        assert(s.update(i, true).drop_last() =~= s.drop_last().update(i, true));
    }
}

proof fn lemma_count_true_full(s: Seq<bool>)
    ensures
        count_true(s) <= s.len(),
        count_true(s) == s.len() ==> forall|i: int| 0 <= i < s.len() ==> s[i],
        (forall|i: int| 0 <= i < s.len() ==> s[i]) ==> count_true(s) == s.len(),
    decreases s.len(),
{
    if s.len() > 0 {
        lemma_count_true_full(s.drop_last());
        if count_true(s) == s.len() {
            assert forall|i: int| 0 <= i < s.len() implies s[i] by {
                if i < s.len() - 1 {
                    assert(s.drop_last()[i]);
                }
            }
        }
        if forall|i: int| 0 <= i < s.len() ==> s[i] {
            assert(forall|i: int| 0 <= i < s.drop_last().len() ==> s.drop_last()[i]);
            assert(s.last());
        }
    }
}

/// Within `ord`, starting from a position `k` whose step is unplaced, there
/// is an earliest position whose step is unplaced.
proof fn lemma_min_unplaced(placed: Seq<bool>, ord: Seq<usize>, k: int) -> (m: int)
    requires
        0 <= k < ord.len(),
        forall|j: int| 0 <= j < ord.len() ==> (#[trigger] ord[j]) < placed.len(),
        !placed[ord[k] as int],
    ensures
        0 <= m <= k,
        !placed[ord[m] as int],
        forall|j: int| 0 <= j < m ==> placed[ord[j] as int],
    decreases k,
{
    if exists|j: int| 0 <= j < k && !placed[ord[j] as int] {
        let j = choose|j: int| 0 <= j < k && !placed[ord[j] as int];
        lemma_min_unplaced(placed, ord, j)
    } else {
        k
    }
}

/// When some step is unplaced and every unplaced step has an unplaced
/// dependency, no build order exists at all.
proof fn lemma_blocked_no_order(deps: Seq<Seq<usize>>, placed: Seq<bool>)
    requires
        placed.len() == deps.len(),
        placed.len() <= usize::MAX,
        deps_wf(deps),
        exists|u: int| 0 <= u < placed.len() && !placed[u],
        forall|x: int|
            0 <= x < placed.len() && !placed[x] ==> exists|e: usize|
                deps[x].contains(e) && !placed[e as int],
    ensures
        forall|ord: Seq<usize>| !valid_order(deps, ord),
{
    assert forall|ord: Seq<usize>| !valid_order(deps, ord) by {
        if valid_order(deps, ord) {
            let u = choose|u: int| 0 <= u < placed.len() && !placed[u];
            assert(ord.contains(u as usize));
            let k0 = choose|k: int| 0 <= k < ord.len() && ord[k] == u as usize;
            assert(!placed[ord[k0] as int]);
            let m = lemma_min_unplaced(placed, ord, k0);
            let x = ord[m] as int;
            let e = choose|e: usize| deps[x].contains(e) && !placed[e as int];
            assert(deps[ord[m] as int].contains(e));
            let j = choose|j: int| 0 <= j < m && ord[j] == e;
            assert(placed[ord[j] as int]);
            assert(false);
        }
    }
}

/// Whether every index of `ds` is marked placed.
fn all_deps_placed(ds: &Vec<usize>, placed: &Vec<bool>) -> (r: bool)
    requires
        forall|k: int| 0 <= k < ds@.len() ==> (#[trigger] ds@[k]) < placed@.len(),
    ensures
        r == (forall|k: int| 0 <= k < ds@.len() ==> placed@[#[trigger] ds@[k] as int]),
{
    let mut k: usize = 0;
    while k < ds.len()
        invariant
            k <= ds@.len(),
            forall|j: int| 0 <= j < ds@.len() ==> (#[trigger] ds@[j]) < placed@.len(),
            forall|j: int| 0 <= j < k ==> placed@[#[trigger] ds@[j] as int],
        decreases ds@.len() - k,
    {
        if !placed[ds[k]] {
            return false;
        }
        k = k + 1;
    }
    true
}

/// Computes a build order over step indices, or the set of indices that
/// cannot be ordered because each of them depends on another of them.
///
/// An order is found iff one exists; a wave that places no step fails at
/// once rather than looping.
#[verifier::rlimit(100)]
fn topo_order(deps: &Vec<Vec<usize>>) -> (r: Result<Vec<usize>, Vec<usize>>)
    requires
        deps_wf(deps.deep_view()),
    ensures
        (r is Ok) == (exists|ord: Seq<usize>| valid_order(deps.deep_view(), ord)),
        r matches Ok(ord) ==> valid_order(deps.deep_view(), ord@),
        r matches Err(rem) ==> {
            &&& rem@.len() > 0
            &&& rem@.no_duplicates()
            &&& (forall|k: int| 0 <= k < rem@.len() ==> (#[trigger] rem@[k]) < deps@.len())
            &&& (forall|k: int|
                0 <= k < rem@.len() ==> exists|e: usize|
                    deps.deep_view()[#[trigger] rem@[k] as int].contains(e) && rem@.contains(e))
        },
{
    let ghost dv = deps.deep_view();
    proof {
        assert(dv.len() == deps@.len());
        assert forall|i: int| 0 <= i < deps@.len() implies dv[i] == deps@[i]@ by {
            assert(dv[i] =~= deps@[i]@);
        }
    }
    let n = deps.len();
    let mut placed: Vec<bool> = Vec::new();
    let mut t: usize = 0;
    while t < n
        invariant
            placed@.len() == t,
            t <= n,
            forall|i: int| 0 <= i < t ==> !placed@[i],
        decreases n - t,
    {
        placed.push(false);
        t = t + 1;
    }
    proof {
        lemma_count_true_all_false(placed@);
    }
    let mut ord: Vec<usize> = Vec::new();
    while ord.len() < n
        invariant
            dv == deps.deep_view(),
            dv.len() == n,
            deps@.len() == n,
            deps_wf(dv),
            forall|i: int| 0 <= i < n ==> dv[i] == deps@[i]@,
            placed@.len() == n,
            ord@.len() == count_true(placed@),
            ord@.len() <= n,
            ord@.no_duplicates(),
            forall|k: int| 0 <= k < ord@.len() ==> (#[trigger] ord@[k]) < n,
            forall|i: int| 0 <= i < n ==> placed@[i] == #[trigger] ord@.contains(i as usize),
            forall|k: int, e: usize|
                0 <= k < ord@.len() && (#[trigger] dv[ord@[k] as int].contains(e)) ==> exists|
                    j: int,
                |
                    0 <= j < k && ord@[j] == e,
        decreases n - ord@.len(),
    {
        let ghost placed0 = placed@;
        let ghost len0 = ord@.len();
        let mut progressed = false;
        let mut i: usize = 0;
        while i < n
            invariant
                dv == deps.deep_view(),
                dv.len() == n,
                deps@.len() == n,
                deps_wf(dv),
                forall|x: int| 0 <= x < n ==> dv[x] == deps@[x]@,
                i <= n,
                placed@.len() == n,
                placed0.len() == n,
                ord@.len() == count_true(placed@),
                ord@.len() <= n,
                ord@.no_duplicates(),
                forall|k: int| 0 <= k < ord@.len() ==> (#[trigger] ord@[k]) < n,
                forall|x: int| 0 <= x < n ==> placed@[x] == #[trigger] ord@.contains(x as usize),
                forall|k: int, e: usize|
                    0 <= k < ord@.len() && (#[trigger] dv[ord@[k] as int].contains(e)) ==> exists|
                        j: int,
                    |
                        0 <= j < k && ord@[j] == e,
                !progressed ==> placed@ == placed0 && ord@.len() == len0,
                progressed ==> ord@.len() > len0,
                !progressed ==> forall|x: int|
                    0 <= x < i && !placed0[x] ==> exists|e: usize|
                        dv[x].contains(e) && !placed0[e as int],
            decreases n - i,
        {
            proof {
                assert forall|k: int|
                    0 <= k < deps@[i as int]@.len() implies (#[trigger] deps@[i as int]@[k])
                    < placed@.len() by {
                    assert(dv[i as int][k] < dv.len());
                }
            }
            let ghost placed_pre = placed@;
            let ghost ord_pre = ord@;
            let can_place = !placed[i] && all_deps_placed(&deps[i], &placed);
            if can_place {
                ord.push(i);
                placed.set(i, true);
                progressed = true;
                proof {
                    assert(ord@ == ord_pre.push(i as usize));
                    assert(placed@ == placed_pre.update(i as int, true));
                    assert(!ord_pre.contains(i as usize));
                    lemma_count_true_update(placed_pre, i as int);
                    lemma_count_true_full(placed@);
                    // no duplicates after the push
                    assert forall|a: int, b: int|
                        0 <= a < ord@.len() && 0 <= b < ord@.len() && a != b implies ord@[a]
                        != ord@[b] by {
                        if a < ord_pre.len() && b < ord_pre.len() {
                            assert(ord_pre[a] != ord_pre[b]);
                        } else if a == ord_pre.len() {
                            assert(ord@[a] == i as usize && ord@[b] == ord_pre[b]);
                        } else {
                            assert(ord@[b] == i as usize && ord@[a] == ord_pre[a]);
                        }
                    }
                    // placed set and order membership still agree
                    assert forall|x: int| 0 <= x < n implies placed@[x] == #[trigger] ord@.contains(
                        x as usize,
                    ) by {
                        assert(ord@.contains(x as usize) == (i as usize == x as usize
                            || ord_pre.contains(x as usize)));
                    }
                    // every import of a placed step stands earlier in the order
                    assert forall|k: int, e: usize|
                        0 <= k < ord@.len() && (#[trigger] dv[ord@[k] as int].contains(
                            e,
                        )) implies exists|j: int| 0 <= j < k && ord@[j] == e by {
                        if k < ord_pre.len() {
                            assert(dv[ord_pre[k] as int].contains(e));
                            let j = choose|j: int| 0 <= j < k && ord_pre[j] == e;
                            assert(ord@[j] == e);
                        } else {
                            assert(ord@[k] == i as usize);
                            let m = choose|m: int|
                                0 <= m < dv[i as int].len() && dv[i as int][m] == e;
                            assert(placed_pre[deps@[i as int]@[m] as int]);
                            assert(e < n);
                            assert(placed_pre[e as int]);
                            assert(ord_pre.contains(((e as int) as usize)));
                            assert(((e as int) as usize) == e);
                            assert(ord_pre.contains(e));
                            let j = choose|j: int| 0 <= j < ord_pre.len() && ord_pre[j] == e;
                            assert(ord@[j] == e);
                        }
                    }
                }
            } else {
                proof {
                    if !progressed && !placed@[i as int] {
                        let k = choose|k: int|
                            0 <= k < deps@[i as int]@.len() && !placed@[deps@[i as int]@[k] as int];
                        assert(dv[i as int].contains(deps@[i as int]@[k]));
                    }
                }
            }
            i = i + 1;
        }
        if !progressed {
            proof {
                lemma_count_true_full(placed@);
                assert(count_true(placed@) < n);
                assert(!(forall|y: int| 0 <= y < n ==> placed@[y]));
            }
            let mut rem: Vec<usize> = Vec::new();
            let mut x: usize = 0;
            while x < n
                invariant
                    placed@.len() == n,
                    x <= n,
                    rem@.no_duplicates(),
                    forall|k: int| 0 <= k < rem@.len() ==> (#[trigger] rem@[k]) < x,
                    forall|y: int|
                        0 <= y < x ==> (!placed@[y] == #[trigger] rem@.contains(y as usize)),
                decreases n - x,
            {
                let ghost rem_pre = rem@;
                if !placed[x] {
                    proof {
                        assert(!rem_pre.contains(x as usize));
                    }
                    rem.push(x);
                    proof {
                        assert forall|a: int, b: int|
                            0 <= a < rem@.len() && 0 <= b < rem@.len() && a != b implies rem@[a]
                            != rem@[b] by {
                            if a < rem_pre.len() && b < rem_pre.len() {
                                assert(rem_pre[a] != rem_pre[b]);
                            } else if a == rem_pre.len() {
                                assert(rem@[a] == x as usize && rem@[b] == rem_pre[b]);
                            } else {
                                assert(rem@[b] == x as usize && rem@[a] == rem_pre[a]);
                            }
                        }
                        assert forall|y: int| 0 <= y < x + 1 implies (!placed@[y]
                            == #[trigger] rem@.contains(y as usize)) by {
                            assert(rem@.contains(y as usize) == (x as usize == y as usize
                                || rem_pre.contains(y as usize)));
                        }
                    }
                } else {
                    proof {
                        assert(!rem@.contains(x as usize));
                    }
                }
                x = x + 1;
            }
            proof {
                let u = choose|y: int| 0 <= y < n && !placed@[y];
                assert(rem@.contains(u as usize));
                assert(rem@.len() > 0);
                lemma_blocked_no_order(dv, placed@);
                assert forall|k: int| 0 <= k < rem@.len() implies exists|e: usize|
                    dv[#[trigger] rem@[k] as int].contains(e) && rem@.contains(e) by {
                    let y = rem@[k];
                    assert(rem@.contains(y));
                    assert(((y as int) as usize) == y);
                    assert(rem@.contains(((y as int) as usize)));
                    assert(!placed@[y as int]);
                    let e = choose|e: usize| dv[y as int].contains(e) && !placed@[e as int];
                    assert(e < n);
                    assert(((e as int) as usize) == e);
                    assert(rem@.contains(((e as int) as usize)));
                    assert(rem@.contains(e));
                }
            }
            return Err(rem);
        }
    }
    proof {
        lemma_count_true_full(placed@);
        assert(valid_order(dv, ord@));
    }
    Ok(ord)
}

// ---------------------------------------------------------------------------
// From the graph to the index-level model.
// ---------------------------------------------------------------------------

/// `deps` lists, step by step, the index of each import target, in
/// declaration order.
pub open spec fn deps_match(g: Seq<(String, Build)>, deps: Seq<Seq<usize>>) -> bool {
    &&& deps.len() == g.len()
    &&& (forall|i: int|
        0 <= i < g.len() ==> (#[trigger] deps[i]).len() == g[i].1.spec_imports().len())
    &&& (forall|i: int, k: int|
        0 <= i < g.len() && 0 <= k < deps[i].len() ==> (#[trigger] deps[i][k]) < g.len()
            && g[deps[i][k] as int].0@ == g[i].1.spec_imports()[k])
}

/// Every import of every step names a step of the graph.
pub open spec fn all_imports_known(g: Seq<(String, Build)>) -> bool {
    forall|i: int, t: Seq<char>|
        0 <= i < g.len() && #[trigger] g[i].1.spec_imports().contains(t) ==> has_step(g, t)
}

proof fn lemma_deps_match_known(g: Seq<(String, Build)>, deps: Seq<Seq<usize>>)
    requires
        deps_match(g, deps),
    ensures
        all_imports_known(g),
        deps_wf(deps),
{
    assert forall|i: int, t: Seq<char>|
        0 <= i < g.len() && #[trigger] g[i].1.spec_imports().contains(t) implies has_step(
        g,
        t,
    ) by {
        let k = choose|k: int|
            0 <= k < g[i].1.spec_imports().len() && g[i].1.spec_imports()[k] == t;
        assert(deps[i][k] < g.len() && g[deps[i][k] as int].0@ == t);
    }
}

/// An import instruction's target is among the script sequence's imports.
proof fn lemma_script_import_in_imports(s: Seq<BuildScript>, j: int)
    requires
        0 <= j < s.len(),
        s[j].is_import(),
    ensures
        imports_of_scripts(s).contains(s[j].import_target()),
    decreases s.len(),
{
    if j == s.len() - 1 {
        let rest = imports_of_scripts(s.drop_last());
        assert(imports_of_scripts(s)[rest.len() as int] == s[j].import_target());
    } else {
        lemma_script_import_in_imports(s.drop_last(), j);
        assert(s.drop_last()[j] == s[j]);
    }
}

/// The error names a step of the graph and one of its imports, and no step
/// of the graph bears the imported name.
pub open spec fn names_unknown_import(g: Seq<(String, Build)>, e: BuildError) -> bool {
    match e {
        BuildError::UnknownImportTarget { step, import } => {
            &&& !has_step(g, import@)
            &&& exists|i: int|
                0 <= i < g.len() && g[i].0@ == step@ && #[trigger] g[i].1.spec_imports().contains(
                    import@,
                )
        },
        _ => false,
    }
}

/// Resolves every import of every step to the index of the step it names, or
/// reports the first unresolved import.
fn build_deps(g: &Vec<(String, Build)>) -> (r: Result<Vec<Vec<usize>>, BuildError>)
    ensures
        (r is Ok) == all_imports_known(g@),
        r matches Ok(deps) ==> deps_match(g@, deps.deep_view()),
        r matches Err(e) ==> names_unknown_import(g@, e),
{
    let n = g.len();
    let mut deps: Vec<Vec<usize>> = Vec::new();
    let mut i: usize = 0;
    while i < n
        invariant
            g@.len() == n,
            i <= n,
            deps@.len() == i,
            forall|x: int|
                0 <= x < i ==> (#[trigger] deps@[x]@).len() == g@[x].1.spec_imports().len(),
            forall|x: int, k: int|
                0 <= x < i && 0 <= k < deps@[x]@.len() ==> (#[trigger] deps@[x]@[k]) < n
                    && g@[deps@[x]@[k] as int].0@ == g@[x].1.spec_imports()[k],
        decreases n - i,
    {
        let scripts = &g[i].1.scripts;
        let m = scripts.len();
        let mut ds: Vec<usize> = Vec::new();
        let mut j: usize = 0;
        while j < m
            invariant
                g@.len() == n,
                i < n,
                scripts@ == g@[i as int].1.scripts@,
                scripts@.len() == m,
                j <= m,
                ds@.len() == imports_of_scripts(scripts@.subrange(0, j as int)).len(),
                forall|k: int|
                    0 <= k < ds@.len() ==> (#[trigger] ds@[k]) < n && g@[ds@[k] as int].0@
                        == imports_of_scripts(scripts@.subrange(0, j as int))[k],
            decreases m - j,
        {
            let ghost pref = scripts@.subrange(0, j as int);
            let ghost pref1 = scripts@.subrange(0, j as int + 1);
            proof {
                assert(pref1.drop_last() =~= pref);
                assert(pref1.last() == scripts@[j as int]);
            }
            match &scripts[j] {
                BuildScript::Import { import } => {
                    match crate::config::find_step(g, import) {
                        Some(x) => {
                            ds.push(x);
                            proof {
                                assert(imports_of_scripts(pref1) =~= imports_of_scripts(pref).push(
                                    import@,
                                ));
                            }
                        },
                        None => {
                            let step_name = g[i].0.clone();
                            let import_name = import.clone();
                            proof {
                                assert(scripts@[j as int].is_import());
                                assert(scripts@[j as int].import_target() == import@);
                                lemma_script_import_in_imports(scripts@, j as int);
                                assert(g@[i as int].1.spec_imports().contains(import_name@));
                                assert(!all_imports_known(g@));
                                assert(!has_step(g@, import_name@));
                                assert(g@[i as int].0@ == step_name@);
                                assert(exists|x: int|
                                    0 <= x < g@.len() && g@[x].0@ == step_name@
                                        && #[trigger] g@[x].1.spec_imports().contains(
                                        import_name@,
                                    ));
                            }
                            let err = BuildError::UnknownImportTarget {
                                step: step_name,
                                import: import_name,
                            };
                            proof {
                                assert(names_unknown_import(g@, err));
                            }
                            return Err(err);
                        },
                    }
                },
                _ => {
                    proof {
                        assert(imports_of_scripts(pref1) =~= imports_of_scripts(pref));
                    }
                },
            }
            j = j + 1;
        }
        proof {
            assert(scripts@.subrange(0, m as int) =~= scripts@);
        }
        deps.push(ds);
        i = i + 1;
    }
    proof {
        assert(deps.deep_view().len() == deps@.len());
        assert forall|x: int| 0 <= x < n implies deps.deep_view()[x] == deps@[x]@ by {
            assert(deps.deep_view()[x] =~= deps@[x]@);
        }
        lemma_deps_match_known(g@, deps.deep_view());
    }
    Ok(deps)
}

/// Whether `v` holds `x`.
fn vec_contains(v: &Vec<usize>, x: usize) -> (r: bool)
    ensures
        r == v@.contains(x),
{
    let mut k: usize = 0;
    while k < v.len()
        invariant
            k <= v@.len(),
            forall|j: int| 0 <= j < k ==> v@[j] != x,
        decreases v@.len() - k,
    {
        if v[k] == x {
            return true;
        }
        k = k + 1;
    }
    false
}

/// For each step index, whether some step imports it.
fn compute_has_dependents(deps: &Vec<Vec<usize>>) -> (r: Vec<bool>)
    ensures
        r@.len() == deps@.len(),
        forall|i: int|
            0 <= i < deps@.len() ==> (r@[i] == exists|j: int|
                0 <= j < deps@.len() && (#[trigger] deps.deep_view()[j]).contains(i as usize)),
{
    let ghost dv = deps.deep_view();
    proof {
        assert(dv.len() == deps@.len());
        assert forall|x: int| 0 <= x < deps@.len() implies dv[x] == deps@[x]@ by {
            assert(dv[x] =~= deps@[x]@);
        }
    }
    let n = deps.len();
    let mut r: Vec<bool> = Vec::new();
    let mut i: usize = 0;
    while i < n
        invariant
            dv == deps.deep_view(),
            deps@.len() == n,
            dv.len() == n,
            forall|x: int| 0 <= x < n ==> dv[x] == deps@[x]@,
            i <= n,
            r@.len() == i,
            forall|x: int|
                0 <= x < i ==> (r@[x] == exists|j: int|
                    0 <= j < n && (#[trigger] dv[j]).contains(x as usize)),
        decreases n - i,
    {
        let mut found = false;
        let mut j: usize = 0;
        while j < n
            invariant
                dv == deps.deep_view(),
                deps@.len() == n,
                dv.len() == n,
                forall|x: int| 0 <= x < n ==> dv[x] == deps@[x]@,
                i < n,
                j <= n,
                found == exists|j2: int| 0 <= j2 < j && (#[trigger] dv[j2]).contains(i),
            decreases n - j,
        {
            let c = vec_contains(&deps[j], i);
            proof {
                assert(c == dv[j as int].contains(i));
            }
            if c {
                found = true;
                proof {
                    assert(exists|j2: int| 0 <= j2 < j + 1 && (#[trigger] dv[j2]).contains(i));
                }
            }
            j = j + 1;
        }
        proof {
            assert(found == exists|j2: int| 0 <= j2 < n && (#[trigger] dv[j2]).contains(i));
            assert(((i as int) as usize) == i);
        }
        r.push(found);
        i = i + 1;
    }
    r
}

// ---------------------------------------------------------------------------
// Name-level contracts: what resolution means on the graph itself.
// ---------------------------------------------------------------------------

/// The step named `a` has an import naming `b`.
pub open spec fn graph_imports(g: Seq<(String, Build)>, a: Seq<char>, b: Seq<char>) -> bool {
    exists|i: int|
        0 <= i < g.len() && g[i].0@ == a && #[trigger] g[i].1.spec_imports().contains(b)
}

/// `order` is a build order over step names: every step appears exactly once
/// and stands strictly after each step it imports.
pub open spec fn valid_name_order(g: Seq<(String, Build)>, order: Seq<Seq<char>>) -> bool {
    &&& order.len() == g.len()
    &&& order.no_duplicates()
    &&& (forall|k: int| 0 <= k < order.len() ==> has_step(g, #[trigger] order[k]))
    &&& (forall|i: int| 0 <= i < g.len() ==> #[trigger] order.contains(g[i].0@))
    &&& (forall|k1: int, k2: int|
        0 <= k1 < order.len() && 0 <= k2 < order.len() && #[trigger] graph_imports(
            g,
            order[k1],
            order[k2],
        ) ==> k2 < k1)
}

/// Some step of the graph imports the step named `name`.
pub open spec fn spec_has_dependent(g: Seq<(String, Build)>, name: Seq<char>) -> bool {
    exists|i: int| 0 <= i < g.len() && #[trigger] g[i].1.spec_imports().contains(name)
}

/// An index-level build order, read back as names, is a name-level build
/// order.
proof fn lemma_index_order_to_name_order(
    g: Seq<(String, Build)>,
    deps: Seq<Seq<usize>>,
    ord: Seq<usize>,
)
    requires
        g.len() <= usize::MAX,
        wf_graph(g),
        deps_match(g, deps),
        valid_order(deps, ord),
    ensures
        valid_name_order(g, Seq::new(ord.len(), |k: int| g[ord[k] as int].0@)),
{
    let names = Seq::new(ord.len(), |k: int| g[ord[k] as int].0@);
    assert(names.len() == g.len());
    assert forall|a: int, b: int|
        0 <= a < names.len() && 0 <= b < names.len() && a != b implies names[a] != names[b] by {
        assert(ord[a] != ord[b]);
    }
    assert forall|k: int| 0 <= k < names.len() implies has_step(g, #[trigger] names[k]) by {
        assert(g[ord[k] as int].0@ == names[k]);
    }
    assert forall|i: int| 0 <= i < g.len() implies #[trigger] names.contains(g[i].0@) by {
        assert(ord.contains(i as usize));
        let k = choose|k: int| 0 <= k < ord.len() && ord[k] == i as usize;
        assert(((i as usize) as int) == i);
        assert(names[k] == g[i].0@);
    }
    assert forall|k1: int, k2: int|
        0 <= k1 < names.len() && 0 <= k2 < names.len() && #[trigger] graph_imports(
            g,
            names[k1],
            names[k2],
        ) implies k2 < k1 by {
        let i = choose|i: int|
            0 <= i < g.len() && g[i].0@ == names[k1] && #[trigger] g[i].1.spec_imports().contains(
                names[k2],
            );
        assert(g[ord[k1] as int].0@ == names[k1]);
        assert(i == ord[k1] as int) by {
            if i != ord[k1] as int {
                assert(g[i].0@ != g[ord[k1] as int].0@);
            }
        }
        let m = choose|m: int|
            0 <= m < g[i].1.spec_imports().len() && g[i].1.spec_imports()[m] == names[k2];
        let e = deps[i][m];
        assert(g[e as int].0@ == names[k2]);
        assert(g[ord[k2] as int].0@ == names[k2]);
        assert(e == ord[k2]) by {
            if e as int != ord[k2] as int {
                assert(g[e as int].0@ != g[ord[k2] as int].0@);
            }
        }
        assert(deps[ord[k1] as int].contains(e));
        let j = choose|j: int| 0 <= j < k1 && ord[j] == e;
        assert(ord[j] == ord[k2]);
        assert(j == k2);
    }
}

/// A name-level build order yields an index-level one.
proof fn lemma_name_order_to_index_order(
    g: Seq<(String, Build)>,
    deps: Seq<Seq<usize>>,
    norder: Seq<Seq<char>>,
)
    requires
        g.len() <= usize::MAX,
        wf_graph(g),
        deps_match(g, deps),
        valid_name_order(g, norder),
    ensures
        exists|ord: Seq<usize>| valid_order(deps, ord),
{
    let ord = Seq::new(norder.len(), |k: int| spec_index_of(g, norder[k]) as usize);
    assert forall|k: int|
        0 <= k < ord.len() implies (#[trigger] ord[k]) < deps.len()
        && g[ord[k] as int].0@ == norder[k] by {
        assert(has_step(g, norder[k]));
        let i = spec_index_of(g, norder[k]);
        assert(0 <= i < g.len() && g[i].0@ == norder[k]);
    }
    assert forall|a: int, b: int|
        0 <= a < ord.len() && 0 <= b < ord.len() && a != b implies ord[a] != ord[b] by {
        if ord[a] == ord[b] {
            assert(norder[a] == norder[b]);
        }
    }
    assert forall|i: int| 0 <= i < deps.len() implies #[trigger] ord.contains(i as usize) by {
        assert(norder.contains(g[i].0@));
        let k = choose|k: int| 0 <= k < norder.len() && norder[k] == g[i].0@;
        assert(g[ord[k] as int].0@ == g[i].0@);
        assert(ord[k] as int == i) by {
            if ord[k] as int != i {
                assert(g[ord[k] as int].0@ != g[i].0@);
            }
        }
        assert(ord[k] == i as usize);
    }
    assert forall|k: int, e: usize|
        0 <= k < ord.len() && (#[trigger] deps[ord[k] as int].contains(e)) implies exists|j: int|
        0 <= j < k && ord[j] == e by {
        let i = ord[k] as int;
        let m = choose|m: int| 0 <= m < deps[i].len() && deps[i][m] == e;
        let t = g[i].1.spec_imports()[m];
        assert(g[e as int].0@ == t);
        assert(g[i].1.spec_imports().contains(t));
        assert(graph_imports(g, norder[k], t)) by {
            assert(g[i].0@ == norder[k]);
        }
        assert(norder.contains(g[e as int].0@));
        let k2 = choose|k2: int| 0 <= k2 < norder.len() && norder[k2] == g[e as int].0@;
        assert(graph_imports(g, norder[k], norder[k2]));
        assert(k2 < k);
        assert(g[ord[k2] as int].0@ == norder[k2]);
        assert(ord[k2] as int == e as int) by {
            if ord[k2] as int != e as int {
                assert(g[ord[k2] as int].0@ != g[e as int].0@);
            }
        }
        assert(ord[k2] == e);
    }
    assert(valid_order(deps, ord));
}

/// Whether some step of the graph imports the step at index `i`, stated at
/// name level.
proof fn lemma_dependent_bridge(g: Seq<(String, Build)>, deps: Seq<Seq<usize>>, i: int)
    requires
        g.len() <= usize::MAX,
        wf_graph(g),
        deps_match(g, deps),
        0 <= i < g.len(),
    ensures
        (exists|j: int| 0 <= j < deps.len() && (#[trigger] deps[j]).contains(i as usize))
            == spec_has_dependent(g, g[i].0@),
{
    if exists|j: int| 0 <= j < deps.len() && (#[trigger] deps[j]).contains(i as usize) {
        let j = choose|j: int| 0 <= j < deps.len() && (#[trigger] deps[j]).contains(i as usize);
        let m = choose|m: int| 0 <= m < deps[j].len() && deps[j][m] == i as usize;
        assert(g[deps[j][m] as int].0@ == g[j].1.spec_imports()[m]);
        assert(g[j].1.spec_imports().contains(g[i].0@));
        assert(spec_has_dependent(g, g[i].0@));
    }
    if spec_has_dependent(g, g[i].0@) {
        let j = choose|j: int|
            0 <= j < g.len() && #[trigger] g[j].1.spec_imports().contains(g[i].0@);
        let m = choose|m: int|
            0 <= m < g[j].1.spec_imports().len() && g[j].1.spec_imports()[m] == g[i].0@;
        let e = deps[j][m];
        assert(g[e as int].0@ == g[i].0@);
        assert(e as int == i) by {
            if e as int != i {
                assert(g[e as int].0@ != g[i].0@);
            }
        }
        assert(deps[j].contains(i as usize));
    }
}

/// The outcome of dependency resolution: the step names in build order and,
/// for each, whether some later step imports it.
pub struct Resolution {
    pub order: Vec<String>,
    pub has_dependents: Vec<bool>,
}

/// The step at position `k` of `names` imports another name of `names`.
pub open spec fn imports_within(g: Seq<(String, Build)>, names: Seq<Seq<char>>, k: int) -> bool {
    exists|t: Seq<char>| graph_imports(g, names[k], t) && names.contains(t)
}

/// The named steps cannot be ordered: each of them imports another of them.
pub open spec fn cycle_remainder(g: Seq<(String, Build)>, remaining: Vec<String>) -> bool {
    &&& remaining@.len() > 0
    &&& remaining.deep_view().no_duplicates()
    &&& (forall|k: int|
        0 <= k < remaining@.len() ==> has_step(g, #[trigger] remaining.deep_view()[k]))
    &&& (forall|k: int|
        0 <= k < remaining@.len() ==> #[trigger] imports_within(g, remaining.deep_view(), k))
}

/// The error names the steps that cannot be ordered: each of them imports
/// another of them.
pub open spec fn names_cycle(g: Seq<(String, Build)>, e: BuildError) -> bool {
    match e {
        BuildError::CycleDetected { remaining } => cycle_remainder(g, remaining),
        _ => false,
    }
}

/// Computes a build order over step names, in which every step stands
/// strictly after each step it imports, together with each ordered step's
/// dependent flag. Fails with `UnknownImportTarget` when an import names no
/// step of the graph, and with `CycleDetected` when the import edges admit
/// no order at all; an order is returned iff one exists.
pub fn resolve(config: &Config) -> (r: Result<Resolution, BuildError>)
    requires
        config.wf(),
    ensures
        (r is Ok) == (all_imports_known(config.build@) && exists|ord: Seq<Seq<char>>|
            valid_name_order(config.build@, ord)),
        r matches Ok(res) ==> {
            &&& valid_name_order(config.build@, res.order.deep_view())
            &&& res.has_dependents@.len() == res.order@.len()
            &&& (forall|k: int|
                0 <= k < res.order@.len() ==> res.has_dependents@[k] == spec_has_dependent(
                    config.build@,
                    #[trigger] res.order.deep_view()[k],
                ))
        },
        r matches Err(e) ==> {
            &&& (e is UnknownImportTarget || e is CycleDetected)
            &&& (e is UnknownImportTarget ==> names_unknown_import(config.build@, e))
            &&& (e is CycleDetected ==> {
                &&& all_imports_known(config.build@)
                &&& (forall|ord: Seq<Seq<char>>| !valid_name_order(config.build@, ord))
                &&& names_cycle(config.build@, e)
            })
        },
{
    let g = &config.build;
    let ghost gs = g@;
    // the graph lives in a vector, so its length has the machine bound the
    // ordering lemmas ask for
    let glen = g.len();
    proof {
        assert(gs.len() == glen);
    }
    let deps = match build_deps(g) {
        Ok(d) => d,
        Err(e) => {
            return Err(e);
        },
    };
    let ghost dv = deps.deep_view();
    proof {
        lemma_deps_match_known(gs, dv);
    }
    let ord = match topo_order(&deps) {
        Ok(o) => o,
        Err(rem) => {
            let mut remaining: Vec<String> = Vec::new();
            let mut k: usize = 0;
            while k < rem.len()
                invariant
                    gs == g@,
                    dv == deps.deep_view(),
                    deps_match(gs, dv),
                    forall|x: int| 0 <= x < rem@.len() ==> (#[trigger] rem@[x]) < gs.len(),
                    k <= rem@.len(),
                    remaining@.len() == k,
                    forall|x: int| 0 <= x < k ==> remaining@[x]@ == gs[rem@[x] as int].0@,
                decreases rem@.len() - k,
            {
                remaining.push(g[rem[k]].0.clone());
                k = k + 1;
            }
            proof {
                let rdv = remaining.deep_view();
                assert(rdv.len() == remaining@.len());
                assert forall|x: int| 0 <= x < rdv.len() implies rdv[x] == remaining@[x]@ by {
                    assert(rdv[x] =~= remaining@[x]@);
                }
                assert forall|a: int, b: int|
                    0 <= a < rdv.len() && 0 <= b < rdv.len() && a != b implies rdv[a] != rdv[b] by {
                    assert(rem@[a] != rem@[b]);
                    if rem@[a] < rem@[b] {
                        assert(gs[rem@[a] as int].0@ != gs[rem@[b] as int].0@);
                    } else {
                        assert(gs[rem@[b] as int].0@ != gs[rem@[a] as int].0@);
                    }
                }
                assert forall|x: int| 0 <= x < rdv.len() implies has_step(
                    gs,
                    #[trigger] rdv[x],
                ) by {
                    assert(gs[rem@[x] as int].0@ == rdv[x]);
                }
                assert forall|x: int| 0 <= x < rdv.len() implies exists|t: Seq<char>|
                    graph_imports(gs, #[trigger] rdv[x], t) && rdv.contains(t) by {
                    let y = rem@[x];
                    let e = choose|e: usize| dv[y as int].contains(e) && rem@.contains(e);
                    let m = choose|m: int| 0 <= m < dv[y as int].len() && dv[y as int][m] == e;
                    let t = gs[y as int].1.spec_imports()[m];
                    assert(gs[e as int].0@ == t);
                    assert(gs[y as int].1.spec_imports().contains(t));
                    assert(graph_imports(gs, rdv[x], t)) by {
                        assert(gs[y as int].0@ == rdv[x]);
                    }
                    let k2 = choose|k2: int| 0 <= k2 < rem@.len() && rem@[k2] == e;
                    assert(rdv[k2] == t);
                    assert(rdv.contains(t));
                }
                assert forall|norder: Seq<Seq<char>>| !valid_name_order(gs, norder) by {
                    if valid_name_order(gs, norder) {
                        lemma_name_order_to_index_order(gs, dv, norder);
                        assert(false);
                    }
                }
                assert(remaining@.len() > 0);
                assert(remaining.deep_view().no_duplicates());
                assert(forall|x: int|
                    0 <= x < remaining@.len() ==> has_step(
                        gs,
                        #[trigger] remaining.deep_view()[x],
                    ));
                assert forall|x: int|
                    0 <= x < remaining@.len() implies #[trigger] imports_within(
                    gs,
                    remaining.deep_view(),
                    x,
                ) by {
                    assert(rdv[x] == remaining.deep_view()[x]);
                    let t0 = choose|t: Seq<char>|
                        graph_imports(gs, #[trigger] rdv[x], t) && rdv.contains(t);
                    assert(graph_imports(gs, remaining.deep_view()[x], t0));
                    assert(remaining.deep_view().contains(t0));
                }
                assert(cycle_remainder(gs, remaining));
            }
            let err = BuildError::CycleDetected { remaining };
            proof {
                assert(names_cycle(gs, err));
            }
            return Err(err);
        },
    };
    let hd = compute_has_dependents(&deps);
    proof {
        assert forall|x: int| 0 <= x < dv.len() implies dv[x] == deps@[x]@ by {
            assert(dv[x] =~= deps@[x]@);
        }
    }
    let mut order: Vec<String> = Vec::new();
    let mut has_dependents: Vec<bool> = Vec::new();
    let mut k: usize = 0;
    while k < ord.len()
        invariant
            gs == g@,
            dv == deps.deep_view(),
            deps_match(gs, dv),
            valid_order(dv, ord@),
            hd@.len() == gs.len(),
            forall|x: int|
                0 <= x < gs.len() ==> (hd@[x] == exists|j: int|
                    0 <= j < gs.len() && (#[trigger] dv[j]).contains(x as usize)),
            k <= ord@.len(),
            order@.len() == k,
            has_dependents@.len() == k,
            forall|x: int| 0 <= x < k ==> order@[x]@ == gs[ord@[x] as int].0@,
            forall|x: int| 0 <= x < k ==> has_dependents@[x] == hd@[ord@[x] as int],
        decreases ord@.len() - k,
    {
        order.push(g[ord[k]].0.clone());
        has_dependents.push(hd[ord[k]]);
        k = k + 1;
    }
    proof {
        let names = Seq::new(ord@.len(), |x: int| gs[ord@[x] as int].0@);
        lemma_index_order_to_name_order(gs, dv, ord@);
        assert(order.deep_view() =~= names);
        assert forall|x: int| 0 <= x < ord@.len() implies has_dependents@[x]
            == spec_has_dependent(gs, #[trigger] order.deep_view()[x]) by {
            lemma_dependent_bridge(gs, dv, ord@[x] as int);
        }
    }
    Ok(Resolution { order, has_dependents })
}

// ---------------------------------------------------------------------------
// Transitive imports.
// ---------------------------------------------------------------------------

/// A chain of import edges: each name on the path imports the next.
pub open spec fn import_path(g: Seq<(String, Build)>, p: Seq<Seq<char>>) -> bool {
    &&& p.len() >= 2
    &&& (forall|k: int| 0 <= k < p.len() - 1 ==> graph_imports(g, #[trigger] p[k], p[k + 1]))
}

/// The step named `a` imports the step named `b`, directly or transitively.
pub open spec fn import_reaches(g: Seq<(String, Build)>, a: Seq<char>, b: Seq<char>) -> bool {
    exists|p: Seq<Seq<char>>| import_path(g, p) && p.first() == a && p.last() == b
}

proof fn lemma_path_position(
    g: Seq<(String, Build)>,
    order: Seq<Seq<char>>,
    p: Seq<Seq<char>>,
    k1: int,
    k2: int,
)
    requires
        valid_name_order(g, order),
        import_path(g, p),
        0 <= k1 < order.len(),
        0 <= k2 < order.len(),
        order[k1] == p.first(),
        order[k2] == p.last(),
    ensures
        k2 < k1,
    decreases p.len(),
{
    if p.len() == 2 {
        assert(graph_imports(g, order[k1], order[k2]));
    } else {
        assert(graph_imports(g, p[1], p[2]));
        let i = choose|i: int|
            0 <= i < g.len() && g[i].0@ == p[1] && #[trigger] g[i].1.spec_imports().contains(p[2]);
        assert(order.contains(g[i].0@));
        let km = choose|k: int| 0 <= k < order.len() && order[k] == p[1];
        assert(graph_imports(g, order[k1], order[km]));
        assert(km < k1);
        let q = p.drop_first();
        assert forall|k: int| 0 <= k < q.len() - 1 implies graph_imports(
            g,
            #[trigger] q[k],
            q[k + 1],
        ) by {
            assert(q[k] == p[k + 1] && q[k + 1] == p[k + 2]);
            assert(graph_imports(g, p[k + 1], p[k + 2]));
        }
        assert(import_path(g, q));
        assert(q.first() == p[1] && q.last() == p.last());
        lemma_path_position(g, order, q, km, k2);
    }
}

/// Law: a build order places every step strictly after every step it
/// imports, directly or transitively.
pub proof fn lemma_order_respects_transitive_imports(
    g: Seq<(String, Build)>,
    order: Seq<Seq<char>>,
    k1: int,
    k2: int,
)
    requires
        valid_name_order(g, order),
        0 <= k1 < order.len(),
        0 <= k2 < order.len(),
        import_reaches(g, order[k1], order[k2]),
    ensures
        k2 < k1,
{
    let p = choose|p: Seq<Seq<char>>|
        import_path(g, p) && p.first() == order[k1] && p.last() == order[k2];
    lemma_path_position(g, order, p, k1, k2);
}

/// Law: a graph with an import cycle admits no build order at all, so
/// resolution on it always reports an error rather than an order.
pub proof fn lemma_cycle_admits_no_order(g: Seq<(String, Build)>, a: Seq<char>)
    requires
        import_reaches(g, a, a),
    ensures
        forall|order: Seq<Seq<char>>| !valid_name_order(g, order),
{
    assert forall|order: Seq<Seq<char>>| !valid_name_order(g, order) by {
        if valid_name_order(g, order) {
            let p = choose|p: Seq<Seq<char>>| import_path(g, p) && p.first() == a && p.last() == a;
            assert(graph_imports(g, p[0], p[1]));
            let i = choose|i: int|
                0 <= i < g.len() && g[i].0@ == p[0] && #[trigger] g[i].1.spec_imports().contains(
                    p[1],
                );
            assert(order.contains(g[i].0@));
            let k = choose|k: int| 0 <= k < order.len() && order[k] == a;
            lemma_order_respects_transitive_imports(g, order, k, k);
            assert(false);
        }
    }
}

} // verus!

