//! Listing the targets of a build in dependency-tree order, and showing their paths.
use vstd::prelude::*;
use std::collections::HashSet;

use crate::paths::{spec_strip_prefix, strip_prefix};

verus! {

/// The state of a walk over the dependency tree: the targets still to look at
/// (the next one last), the targets listed so far, and their ids.
pub struct WalkState<T> {
    pub remaining: Seq<T>,
    pub unique: Seq<T>,
    pub ids: Seq<u64>,
}

/// A walk starts with the roots to look at in their order and nothing listed.
pub open spec fn walk_start<T>(roots: Seq<T>) -> WalkState<T> {
    WalkState { remaining: roots.reverse(), unique: Seq::empty(), ids: Seq::empty() }
}

/// Looking at `target`, whose id is `id` and whose dependencies are `dependencies`:
/// a target whose id was listed already is skipped; any other is listed, and its
/// dependencies are looked at next, in their order.
pub open spec fn walk_visit<T>(s: WalkState<T>, target: T, id: u64, dependencies: Seq<T>) -> WalkState<T> {
    if s.ids.contains(id) {
        s
    } else {
        WalkState {
            remaining: s.remaining + dependencies.reverse(),
            unique: s.unique.push(target),
            ids: s.ids.push(id),
        }
    }
}

/// One step of the walk over a dependency graph in which each target has the id
/// `id_of` and the dependencies `dependencies_of`.
pub open spec fn walk_step<T>(s: WalkState<T>, id_of: spec_fn(T) -> u64, dependencies_of: spec_fn(T) -> Seq<T>) -> WalkState<T> {
    if s.remaining.len() == 0 {
        s
    } else {
        let x = s.remaining.last();
        walk_visit(
            WalkState { remaining: s.remaining.drop_last(), unique: s.unique, ids: s.ids },
            x,
            id_of(x),
            dependencies_of(x),
        )
    }
}

/// The walk from `roots` after `k` steps.
pub open spec fn walk_run<T>(
    roots: Seq<T>,
    id_of: spec_fn(T) -> u64,
    dependencies_of: spec_fn(T) -> Seq<T>,
    k: nat,
) -> WalkState<T>
    decreases k,
{
    if k == 0 {
        walk_start(roots)
    } else {
        walk_step(walk_run(roots, id_of, dependencies_of, (k - 1) as nat), id_of, dependencies_of)
    }
}

/// The `i`-th target of `path` depends on the next one.
pub open spec fn path_edge<T>(dependencies_of: spec_fn(T) -> Seq<T>, path: Seq<T>, i: int) -> bool {
    dependencies_of(path[i]).contains(path[i + 1])
}

/// `path` starts at a root and follows dependency edges.
pub open spec fn dependency_path<T>(roots: Seq<T>, dependencies_of: spec_fn(T) -> Seq<T>, path: Seq<T>) -> bool {
    &&& path.len() > 0
    &&& roots.contains(path[0])
    &&& forall|i: int| 0 <= i < path.len() - 1 ==> #[trigger] path_edge(dependencies_of, path, i)
}

/// `t` is reached from `roots` by following dependency edges.
pub open spec fn reachable<T>(roots: Seq<T>, dependencies_of: spec_fn(T) -> Seq<T>, t: T) -> bool {
    exists|path: Seq<T>| #[trigger] dependency_path(roots, dependencies_of, path) && path.last() == t
}

/// Targets that share an id share their dependencies, as clones of one target do.
pub open spec fn ids_identify<T>(id_of: spec_fn(T) -> u64, dependencies_of: spec_fn(T) -> Seq<T>) -> bool {
    forall|a: T, b: T| #[trigger] id_of(a) == #[trigger] id_of(b) ==> dependencies_of(a) == dependencies_of(b)
}

/// What holds of every state of a walk from `roots`.
pub open spec fn walk_inv<T>(
    s: WalkState<T>,
    roots: Seq<T>,
    id_of: spec_fn(T) -> u64,
    dependencies_of: spec_fn(T) -> Seq<T>,
) -> bool {
    &&& s.ids.len() == s.unique.len()
    &&& s.ids.no_duplicates()
    &&& forall|i: int| 0 <= i < s.ids.len() ==> s.ids[i] == id_of(#[trigger] s.unique[i])
    &&& forall|i: int| 0 <= i < s.unique.len() ==> reachable(roots, dependencies_of, #[trigger] s.unique[i])
    &&& forall|i: int| 0 <= i < s.remaining.len() ==> reachable(roots, dependencies_of, #[trigger] s.remaining[i])
    &&& forall|r: T| #[trigger] roots.contains(r) ==> s.ids.contains(id_of(r)) || s.remaining.contains(r)
    &&& forall|i: int, d: T| 0 <= i < s.unique.len() && #[trigger] dependencies_of(s.unique[i]).contains(d)
            ==> s.ids.contains(id_of(d)) || s.remaining.contains(d)
}

proof fn lemma_reachable_dependency<T>(roots: Seq<T>, dependencies_of: spec_fn(T) -> Seq<T>, u: T, d: T)
    requires
        reachable(roots, dependencies_of, u),
        dependencies_of(u).contains(d),
    ensures
        reachable(roots, dependencies_of, d),
{
    let path = choose|path: Seq<T>| #[trigger] dependency_path(roots, dependencies_of, path) && path.last() == u;
    let longer = path.push(d);
    assert forall|i: int| 0 <= i < longer.len() - 1 implies #[trigger] path_edge(dependencies_of, longer, i) by {
        if i < path.len() - 1 {
            assert(path_edge(dependencies_of, path, i));
        }
    }
    assert(dependency_path(roots, dependencies_of, longer));
}

proof fn lemma_contains_after_pop<T>(s: Seq<T>, y: T)
    requires
        s.len() > 0,
        s.contains(y),
    ensures
        s.drop_last().contains(y) || y == s.last(),
{
    let k = choose|k: int| 0 <= k < s.len() && s[k] == y;
    if k < s.len() - 1 {
        assert(s.drop_last()[k] == y);
    }
}

proof fn lemma_walk_step_inv<T>(
    s: WalkState<T>,
    roots: Seq<T>,
    id_of: spec_fn(T) -> u64,
    dependencies_of: spec_fn(T) -> Seq<T>,
)
    requires
        walk_inv(s, roots, id_of, dependencies_of),
    ensures
        walk_inv(walk_step(s, id_of, dependencies_of), roots, id_of, dependencies_of),
{
    if s.remaining.len() > 0 {
        let x = s.remaining.last();
        let rest = s.remaining.drop_last();
        let next = walk_step(s, id_of, dependencies_of);
        assert(reachable(roots, dependencies_of, s.remaining[s.remaining.len() - 1]));
        // what the popped target leaves behind is still covered
        assert forall|y: T| s.remaining.contains(y) implies next.ids.contains(id_of(y)) || next.remaining.contains(y) by {
            lemma_contains_after_pop(s.remaining, y);
            if rest.contains(y) {
                let k = choose|k: int| 0 <= k < rest.len() && rest[k] == y;
                assert(next.remaining[k] == y);
            } else {
                if !s.ids.contains(id_of(x)) {
                    assert(next.ids[next.ids.len() - 1] == id_of(x));
                }
            }
        }
        assert forall|i: int| 0 <= i < next.remaining.len() implies reachable(roots, dependencies_of, #[trigger] next.remaining[i]) by {
            if i < rest.len() {
                assert(next.remaining[i] == s.remaining[i]);
            } else {
                let deps = dependencies_of(x);
                let j = deps.len() - 1 - (i - rest.len());
                assert(next.remaining[i] == deps[j]);
                assert(deps.contains(deps[j]));
                lemma_reachable_dependency(roots, dependencies_of, x, deps[j]);
            }
        }
        if s.ids.contains(id_of(x)) {
            assert(next.unique == s.unique);
        } else {
            let deps = dependencies_of(x);
            assert(next.ids == s.ids.push(id_of(x)));
            assert forall|i: int, j: int| 0 <= i < j < next.ids.len() implies next.ids[i] != next.ids[j] by {
                if j == next.ids.len() - 1 {
                    assert(s.ids.contains(next.ids[i]));
                }
            }
            assert forall|i: int| 0 <= i < next.ids.len() implies next.ids[i] == id_of(#[trigger] next.unique[i]) by {
                if i < s.ids.len() {
                    assert(next.unique[i] == s.unique[i]);
                }
            }
            assert forall|i: int| 0 <= i < next.unique.len() implies reachable(roots, dependencies_of, #[trigger] next.unique[i]) by {
                if i < s.unique.len() {
                    assert(next.unique[i] == s.unique[i]);
                }
            }
            assert forall|i: int, d: T| 0 <= i < next.unique.len() && #[trigger] dependencies_of(next.unique[i]).contains(d)
                implies next.ids.contains(id_of(d)) || next.remaining.contains(d) by {
                if i < s.unique.len() {
                    assert(next.unique[i] == s.unique[i]);
                    if s.ids.contains(id_of(d)) {
                        let k = choose|k: int| 0 <= k < s.ids.len() && s.ids[k] == id_of(d);
                        assert(next.ids[k] == id_of(d));
                    }
                } else {
                    let k = choose|k: int| 0 <= k < deps.len() && deps[k] == d;
                    let m = rest.len() + deps.len() - 1 - k;
                    assert(next.remaining[m] == d);
                }
            }
        }
        assert forall|r: T| #[trigger] roots.contains(r) implies next.ids.contains(id_of(r)) || next.remaining.contains(r) by {
            if s.ids.contains(id_of(r)) && !s.ids.contains(id_of(x)) {
                let k = choose|k: int| 0 <= k < s.ids.len() && s.ids[k] == id_of(r);
                assert(next.ids[k] == id_of(r));
            }
        }
        assert forall|i: int, d: T| 0 <= i < next.unique.len() && #[trigger] dependencies_of(next.unique[i]).contains(d)
            implies next.ids.contains(id_of(d)) || next.remaining.contains(d) by {
            if s.ids.contains(id_of(x)) {
                assert(next.unique[i] == s.unique[i]);
            }
        }
    }
}

/// Every state that a walk passes through satisfies `walk_inv`.
pub proof fn lemma_walk_run_inv<T>(
    roots: Seq<T>,
    id_of: spec_fn(T) -> u64,
    dependencies_of: spec_fn(T) -> Seq<T>,
    k: nat,
)
    ensures
        walk_inv(walk_run(roots, id_of, dependencies_of, k), roots, id_of, dependencies_of),
    decreases k,
{
    if k == 0 {
        let s = walk_start(roots);
        assert forall|i: int| 0 <= i < s.remaining.len() implies reachable(roots, dependencies_of, #[trigger] s.remaining[i]) by {
            assert(s.remaining[i] == roots[roots.len() - 1 - i]);
            assert(roots.contains(s.remaining[i]));
            assert(dependency_path(roots, dependencies_of, seq![s.remaining[i]]));
        }
        assert forall|r: T| #[trigger] roots.contains(r) implies s.ids.contains(id_of(r)) || s.remaining.contains(r) by {
            let j = choose|j: int| 0 <= j < roots.len() && roots[j] == r;
            assert(s.remaining[roots.len() - 1 - j] == r);
        }
    } else {
        lemma_walk_run_inv(roots, id_of, dependencies_of, (k - 1) as nat);
        lemma_walk_step_inv(walk_run(roots, id_of, dependencies_of, (k - 1) as nat), roots, id_of, dependencies_of);
    }
}

/// A walk lists no id twice, and lists each target together with its own id.
pub proof fn lemma_walk_lists_each_id_once<T>(
    roots: Seq<T>,
    id_of: spec_fn(T) -> u64,
    dependencies_of: spec_fn(T) -> Seq<T>,
    k: nat,
)
    ensures
        ({
            let s = walk_run(roots, id_of, dependencies_of, k);
            &&& s.ids.no_duplicates()
            &&& s.ids.len() == s.unique.len()
            &&& forall|i: int| 0 <= i < s.unique.len() ==> s.ids[i] == id_of(#[trigger] s.unique[i])
        }),
{
    lemma_walk_run_inv(roots, id_of, dependencies_of, k);
}

/// A walk lists only targets that the roots depend on, directly or not, or roots themselves.
pub proof fn lemma_walk_lists_reachable_targets<T>(
    roots: Seq<T>,
    id_of: spec_fn(T) -> u64,
    dependencies_of: spec_fn(T) -> Seq<T>,
    k: nat,
)
    ensures
        ({
            let s = walk_run(roots, id_of, dependencies_of, k);
            forall|i: int| 0 <= i < s.unique.len() ==> reachable(roots, dependencies_of, #[trigger] s.unique[i])
        }),
{
    lemma_walk_run_inv(roots, id_of, dependencies_of, k);
}

proof fn lemma_reachable_listed<T>(
    s: WalkState<T>,
    roots: Seq<T>,
    id_of: spec_fn(T) -> u64,
    dependencies_of: spec_fn(T) -> Seq<T>,
    path: Seq<T>,
)
    requires
        walk_inv(s, roots, id_of, dependencies_of),
        s.remaining.len() == 0,
        ids_identify(id_of, dependencies_of),
        dependency_path(roots, dependencies_of, path),
    ensures
        s.ids.contains(id_of(path.last())),
    decreases path.len(),
{
    if path.len() > 1 {
        let shorter = path.drop_last();
        assert forall|i: int| 0 <= i < shorter.len() - 1 implies #[trigger] path_edge(dependencies_of, shorter, i) by {
            assert(path_edge(dependencies_of, path, i));
        }
        lemma_reachable_listed(s, roots, id_of, dependencies_of, shorter);
        let u = shorter.last();
        let t = path.last();
        assert(path_edge(dependencies_of, path, path.len() - 2));
        assert(dependencies_of(u).contains(t));
        let i = choose|i: int| 0 <= i < s.ids.len() && s.ids[i] == id_of(u);
        assert(id_of(s.unique[i]) == id_of(u));
        assert(dependencies_of(s.unique[i]) == dependencies_of(u));
        assert(dependencies_of(s.unique[i]).contains(t));
    }
}

/// Once a walk has nothing left to look at, every target that the roots depend on,
/// directly or not, shares its id with a listed target, provided that targets
/// sharing an id share their dependencies.
pub proof fn lemma_finished_walk_lists_all_targets<T>(
    roots: Seq<T>,
    id_of: spec_fn(T) -> u64,
    dependencies_of: spec_fn(T) -> Seq<T>,
    k: nat,
    t: T,
)
    requires
        ids_identify(id_of, dependencies_of),
        walk_run(roots, id_of, dependencies_of, k).remaining.len() == 0,
        reachable(roots, dependencies_of, t),
    ensures
        walk_run(roots, id_of, dependencies_of, k).ids.contains(id_of(t)),
{
    let s = walk_run(roots, id_of, dependencies_of, k);
    lemma_walk_run_inv(roots, id_of, dependencies_of, k);
    let path = choose|path: Seq<T>| #[trigger] dependency_path(roots, dependencies_of, path) && path.last() == t;
    lemma_reachable_listed(s, roots, id_of, dependencies_of, path);
}

/// The first root is looked at first and always listed first.
pub proof fn lemma_walk_lists_first_root_first<T>(
    roots: Seq<T>,
    id_of: spec_fn(T) -> u64,
    dependencies_of: spec_fn(T) -> Seq<T>,
    k: nat,
)
    requires
        roots.len() > 0,
        k > 0,
    ensures
        walk_run(roots, id_of, dependencies_of, k).unique.len() > 0,
        walk_run(roots, id_of, dependencies_of, k).unique[0] == roots[0],
    decreases k,
{
    if k == 1 {
        let s = walk_start(roots);
        assert(walk_run(roots, id_of, dependencies_of, 0) == s);
        assert(s.remaining.last() == roots[0]);
    } else {
        lemma_walk_lists_first_root_first(roots, id_of, dependencies_of, (k - 1) as nat);
        let s = walk_run(roots, id_of, dependencies_of, (k - 1) as nat);
        let next = walk_step(s, id_of, dependencies_of);
        if s.remaining.len() > 0 && !s.ids.contains(id_of(s.remaining.last())) {
            assert(next.unique[0] == s.unique[0]);
        }
    }
}

/// `targets` is a finite set that holds the roots and every dependency of its members.
pub open spec fn finite_graph<T>(targets: Set<T>, roots: Seq<T>, dependencies_of: spec_fn(T) -> Seq<T>) -> bool {
    &&& targets.finite()
    &&& forall|r: T| #[trigger] roots.contains(r) ==> targets.contains(r)
    &&& forall|t: T, d: T| targets.contains(t) && #[trigger] dependencies_of(t).contains(d) ==> targets.contains(d)
}

proof fn lemma_walk_stays_within<T>(
    roots: Seq<T>,
    id_of: spec_fn(T) -> u64,
    dependencies_of: spec_fn(T) -> Seq<T>,
    targets: Set<T>,
    k: nat,
)
    requires
        finite_graph(targets, roots, dependencies_of),
    ensures
        ({
            let s = walk_run(roots, id_of, dependencies_of, k);
            &&& forall|i: int| 0 <= i < s.remaining.len() ==> targets.contains(#[trigger] s.remaining[i])
            &&& forall|i: int| 0 <= i < s.unique.len() ==> targets.contains(#[trigger] s.unique[i])
        }),
    decreases k,
{
    let s = walk_run(roots, id_of, dependencies_of, k);
    if k == 0 {
        assert forall|i: int| 0 <= i < s.remaining.len() implies targets.contains(#[trigger] s.remaining[i]) by {
            assert(s.remaining[i] == roots[roots.len() - 1 - i]);
            assert(roots.contains(s.remaining[i]));
        }
    } else {
        lemma_walk_stays_within(roots, id_of, dependencies_of, targets, (k - 1) as nat);
        let prev = walk_run(roots, id_of, dependencies_of, (k - 1) as nat);
        if prev.remaining.len() > 0 {
            let x = prev.remaining.last();
            let rest = prev.remaining.drop_last();
            assert(targets.contains(prev.remaining[prev.remaining.len() - 1]));
            assert forall|i: int| 0 <= i < s.remaining.len() implies targets.contains(#[trigger] s.remaining[i]) by {
                if i < rest.len() {
                    assert(s.remaining[i] == prev.remaining[i]);
                } else {
                    let deps = dependencies_of(x);
                    let j = deps.len() - 1 - (i - rest.len());
                    assert(s.remaining[i] == deps[j]);
                    assert(deps.contains(deps[j]));
                }
            }
            assert forall|i: int| 0 <= i < s.unique.len() implies targets.contains(#[trigger] s.unique[i]) by {
                if i < prev.unique.len() {
                    assert(s.unique[i] == prev.unique[i]);
                }
            }
        }
    }
}

proof fn lemma_walk_listed_bound<T>(
    roots: Seq<T>,
    id_of: spec_fn(T) -> u64,
    dependencies_of: spec_fn(T) -> Seq<T>,
    targets: Set<T>,
    k: nat,
)
    requires
        finite_graph(targets, roots, dependencies_of),
    ensures
        walk_run(roots, id_of, dependencies_of, k).unique.len() <= targets.len(),
{
    let s = walk_run(roots, id_of, dependencies_of, k);
    lemma_walk_run_inv(roots, id_of, dependencies_of, k);
    lemma_walk_stays_within(roots, id_of, dependencies_of, targets, k);
    assert(s.unique.no_duplicates()) by {
        assert forall|i: int, j: int| 0 <= i < s.unique.len() && 0 <= j < s.unique.len() && i != j
            implies s.unique[i] != s.unique[j] by {
            assert(s.ids[i] == id_of(s.unique[i]));
            assert(s.ids[j] == id_of(s.unique[j]));
        }
    }
    s.unique.unique_seq_to_set();
    assert(s.unique.to_set().subset_of(targets));
    vstd::set_lib::lemma_len_subset(s.unique.to_set(), targets);
}

proof fn lemma_walk_finishes_from<T>(
    roots: Seq<T>,
    id_of: spec_fn(T) -> u64,
    dependencies_of: spec_fn(T) -> Seq<T>,
    targets: Set<T>,
    k: nat,
)
    requires
        finite_graph(targets, roots, dependencies_of),
    ensures
        exists|m: nat| #[trigger] walk_run(roots, id_of, dependencies_of, m).remaining.len() == 0,
    decreases
        targets.len() - walk_run(roots, id_of, dependencies_of, k).unique.len(),
        walk_run(roots, id_of, dependencies_of, k).remaining.len(),
{
    let s = walk_run(roots, id_of, dependencies_of, k);
    lemma_walk_listed_bound(roots, id_of, dependencies_of, targets, k);
    lemma_walk_listed_bound(roots, id_of, dependencies_of, targets, k + 1);
    if s.remaining.len() == 0 {
        assert(walk_run(roots, id_of, dependencies_of, k).remaining.len() == 0);
    } else {
        let next = walk_run(roots, id_of, dependencies_of, k + 1);
        assert(next == walk_step(s, id_of, dependencies_of));
        lemma_walk_finishes_from(roots, id_of, dependencies_of, targets, k + 1);
    }
}

/// A walk over a finite dependency graph finishes: after some number of steps it
/// has nothing left to look at.
pub proof fn lemma_walk_finishes<T>(
    roots: Seq<T>,
    id_of: spec_fn(T) -> u64,
    dependencies_of: spec_fn(T) -> Seq<T>,
    targets: Set<T>,
)
    requires
        finite_graph(targets, roots, dependencies_of),
    ensures
        exists|k: nat| #[trigger] walk_run(roots, id_of, dependencies_of, k).remaining.len() == 0,
{
    lemma_walk_finishes_from(roots, id_of, dependencies_of, targets, 0);
}

/// Handing out the next target and visiting it with its own id and dependencies
/// is one step of the walk: a caller that drives `TargetWalk::next` and
/// `TargetWalk::visit` this way follows `walk_run`.
pub proof fn lemma_next_then_visit_is_step<T>(
    s: WalkState<T>,
    id_of: spec_fn(T) -> u64,
    dependencies_of: spec_fn(T) -> Seq<T>,
)
    requires
        s.remaining.len() > 0,
    ensures
        ({
            let x = s.remaining.last();
            let popped = WalkState { remaining: s.remaining.drop_last(), unique: s.unique, ids: s.ids };
            walk_visit(popped, x, id_of(x), dependencies_of(x)) == walk_step(s, id_of, dependencies_of)
        }),
{
}

proof fn lemma_walk_without_roots<T>(
    roots: Seq<T>,
    id_of: spec_fn(T) -> u64,
    dependencies_of: spec_fn(T) -> Seq<T>,
    k: nat,
)
    requires
        roots.len() == 0,
    ensures
        walk_run(roots, id_of, dependencies_of, k) == walk_start(roots),
    decreases k,
{
    if k > 0 {
        lemma_walk_without_roots(roots, id_of, dependencies_of, (k - 1) as nat);
        assert(walk_start(roots).remaining =~= Seq::<T>::empty());
    }
}

/// A finished walk lists nothing exactly when there are no roots.
pub proof fn lemma_finished_walk_lists_nothing_iff_no_roots<T>(
    roots: Seq<T>,
    id_of: spec_fn(T) -> u64,
    dependencies_of: spec_fn(T) -> Seq<T>,
    k: nat,
)
    requires
        walk_run(roots, id_of, dependencies_of, k).remaining.len() == 0,
    ensures
        (walk_run(roots, id_of, dependencies_of, k).unique.len() == 0) <==> (roots.len() == 0),
{
    if roots.len() == 0 {
        lemma_walk_without_roots(roots, id_of, dependencies_of, k);
    } else {
        if k == 0 {
            assert(walk_start(roots).remaining.len() == roots.len());
        }
        lemma_walk_lists_first_root_first(roots, id_of, dependencies_of, k);
    }
}

/// A walk over the dependency tree from a list of roots that lists each target
/// once: depth first, each target before its dependencies, a target skipped
/// when one with its id was listed before.
///
/// The caller looks up the id and the dependencies of each target that `next`
/// hands out and gives them to `visit`.
pub struct TargetWalk<T> {
    remaining: Vec<T>,
    unique: Vec<T>,
    target_ids: HashSet<u64>,
    ids: Ghost<Seq<u64>>,
}

impl<T> View for TargetWalk<T> {
    type V = WalkState<T>;

    closed spec fn view(&self) -> WalkState<T> {
        WalkState { remaining: self.remaining@, unique: self.unique@, ids: self.ids@ }
    }
}

fn push_reversed<T>(stack: &mut Vec<T>, items: Vec<T>)
    ensures
        final(stack)@ == old(stack)@ + items@.reverse(),
{
    let ghost start = stack@;
    let ghost all = items@;
    let mut items = items;
    while items.len() > 0
        invariant
            items@ == all.take(items@.len() as int),
            items@.len() <= all.len(),
            stack@ == start + all.skip(items@.len() as int).reverse(),
        decreases items@.len(),
    {
        let ghost k = items@.len();
        let item = items.pop().unwrap();
        stack.push(item);
        proof {
            assert(items@ =~= all.take(k - 1));
            assert(all.skip(k - 1).reverse() =~= all.skip(k as int).reverse().push(all[k - 1]));
        }
    }
    proof {
        assert(all.skip(0) =~= all);
    }
}

impl<T> TargetWalk<T> {
    /// The ids held in the set of listed ids are exactly the ids of the listed targets,
    /// each once.
    pub closed spec fn wf(&self) -> bool {
        &&& self.ids@.len() == self.unique@.len()
        &&& self.ids@.no_duplicates()
        &&& forall|id: u64| #[trigger] self.target_ids@.contains(id) <==> self.ids@.contains(id)
    }

    /// A walk that will look at `roots` in their order.
    pub fn new(roots: Vec<T>) -> (walk: Self)
        ensures
            walk.wf(),
            walk@ == walk_start(roots@),
    {
        let mut remaining: Vec<T> = Vec::new();
        push_reversed(&mut remaining, roots);
        proof {
            assert(Seq::<T>::empty() + roots@.reverse() =~= roots@.reverse());
        }
        TargetWalk { remaining, unique: Vec::new(), target_ids: HashSet::new(), ids: Ghost(Seq::empty()) }
    }

    /// The next target to look at, if any is left.
    pub fn next(&mut self) -> (target: Option<T>)
        requires
            old(self).wf(),
        ensures
            final(self).wf(),
            old(self)@.remaining.len() == 0 ==> target is None && final(self)@ == old(self)@,
            old(self)@.remaining.len() > 0 ==> {
                &&& target == Some(old(self)@.remaining.last())
                &&& final(self)@ == WalkState {
                    remaining: old(self)@.remaining.drop_last(),
                    unique: old(self)@.unique,
                    ids: old(self)@.ids,
                }
            },
    {
        self.remaining.pop()
    }

    /// Looks at `target`, whose id is `id` and whose dependencies are
    /// `dependencies`; answers whether it was listed.
    pub fn visit(&mut self, target: T, id: u64, dependencies: Vec<T>) -> (listed: bool)
        requires
            old(self).wf(),
        ensures
            final(self).wf(),
            final(self)@ == walk_visit(old(self)@, target, id, dependencies@),
            listed == !old(self)@.ids.contains(id),
    {
        broadcast use vstd::std_specs::hash::group_hash_axioms;
        if self.target_ids.insert(id) {
            assert(self.target_ids@ == old(self).target_ids@.insert(id));
            push_reversed(&mut self.remaining, dependencies);
            self.unique.push(target);
            let ghost ids = self.ids@.push(id);
            self.ids = Ghost(ids);
            proof {
                assert forall|i: int, j: int| 0 <= i < j < ids.len() implies ids[i] != ids[j] by {
                    if j == ids.len() - 1 {
                        assert(old(self).ids@.contains(ids[i]));
                    }
                }
                assert forall|x: u64| #[trigger] self.target_ids@.contains(x) <==> ids.contains(x) by {
                    if x != id && ids.contains(x) {
                        let k = choose|k: int| 0 <= k < ids.len() && ids[k] == x;
                        assert(old(self).ids@[k] == x);
                    }
                    if x == id {
                        assert(ids[ids.len() - 1] == id);
                    }
                    if old(self).ids@.contains(x) {
                        let k = choose|k: int| 0 <= k < old(self).ids@.len() && old(self).ids@[k] == x;
                        assert(ids[k] == x);
                    }
                }
            }
            true
        } else {
            false
        }
    }

    /// The targets listed, in the order in which they were listed.
    pub fn into_targets(self) -> (targets: Vec<T>)
        ensures
            targets@ == self@.unique,
    {
        self.unique
    }
}

/// The part of a target's path below the working directory, or the whole path
/// when it lies outside it; `None` when nothing is left, that is for the working
/// directory itself.
pub open spec fn spec_path_below(path: Seq<char>, working_directory: Seq<char>) -> Option<Seq<char>> {
    let rest = match spec_strip_prefix(path, working_directory) {
        Some(rest) => rest,
        None => path,
    };
    if rest.len() == 0 { None } else { Some(rest) }
}

/// How a target's path is shown: relative to the working directory when it lies
/// inside it, `.` for the working directory itself.
pub open spec fn spec_display_target_path(path: Seq<char>, working_directory: Seq<char>) -> Seq<char> {
    match spec_path_below(path, working_directory) {
        Some(rest) => rest,
        None => "."@,
    }
}

/// Takes the working directory off the front of a target's path; `None` when
/// nothing is left.
pub fn path_below(path: &str, working_directory: &str) -> (below: Option<String>)
    ensures
        match below {
            Some(rest) => spec_path_below(path@, working_directory@) == Some(rest@),
            None => spec_path_below(path@, working_directory@) is None,
        },
{
    let rest = match strip_prefix(path, working_directory) {
        Some(rest) => rest,
        None => path.to_owned(),
    };
    if rest.unicode_len() == 0 {
        None
    } else {
        Some(rest)
    }
}

/// Shows a target's path relative to the working directory, as the path reads
/// there, without tidying it further.
pub fn display_target_path(path: &str, working_directory: &str) -> (shown: String)
    ensures
        shown@ == spec_display_target_path(path@, working_directory@),
{
    match path_below(path, working_directory) {
        Some(rest) => rest,
        None => {
            proof { reveal_strlit("."); }
            ".".to_owned()
        },
    }
}

} // verus!
