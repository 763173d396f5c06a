//! Dependency graphs of named tasks: every dependency must name a task, task
//! names must be distinct, and no chain of dependencies may lead back to where
//! it started.
use vstd::prelude::*;
use crate::text::str_eq;

verus! {

/// The names held by a list of strings.
pub open spec fn names(ids: Seq<String>) -> Seq<Seq<char>> {
    ids.map_values(|s: String| s@)
}

/// The dependency names of each task.
pub open spec fn dep_names(deps: Seq<Vec<String>>) -> Seq<Seq<Seq<char>>> {
    deps.map_values(|v: Vec<String>| names(v@))
}

/// No two tasks share a name.
pub open spec fn all_distinct(ids: Seq<Seq<char>>) -> bool {
    forall|a: int, b: int| 0 <= a < b < ids.len() ==> ids[a] != ids[b]
}

/// `name` is the name of some task.
pub open spec fn names_task(ids: Seq<Seq<char>>, name: Seq<char>) -> bool {
    exists|j: int| 0 <= j < ids.len() && ids[j] == name
}

/// Every dependency of every task names a task.
pub open spec fn all_known(ids: Seq<Seq<char>>, deps: Seq<Seq<Seq<char>>>) -> bool {
    forall|i: int, k: int|
        0 <= i < deps.len() && 0 <= k < deps[i].len() ==> names_task(ids, #[trigger] deps[i][k])
}

/// Task `i` depends on task `j`: one of `i`'s dependencies is `j`'s name.
pub open spec fn depends(ids: Seq<Seq<char>>, deps: Seq<Seq<Seq<char>>>, i: int, j: int) -> bool {
    exists|k: int| 0 <= k < deps[i].len() && deps[i][k] == ids[j]
}

/// `order` lists every task, and lists each task after every task it depends on.
pub open spec fn is_topological_order(
    ids: Seq<Seq<char>>,
    deps: Seq<Seq<Seq<char>>>,
    order: Seq<int>,
) -> bool {
    &&& forall|p: int| 0 <= p < order.len() ==> 0 <= #[trigger] order[p] < ids.len()
    &&& forall|v: int| 0 <= v < ids.len() ==> #[trigger] order.contains(v)
    &&& forall|p: int, j: int|
        0 <= p < order.len() && 0 <= j < ids.len() && #[trigger] depends(ids, deps, order[p], j)
            ==> order.take(p).contains(j)
}

/// The tasks can be run one after another with every dependency run first:
/// no chain of dependencies is circular.
pub open spec fn acyclic(ids: Seq<Seq<char>>, deps: Seq<Seq<Seq<char>>>) -> bool {
    exists|order: Seq<int>| is_topological_order(ids, deps, order)
}

/// `(i, k)` comes before `(task, dep)` when the tasks are read in order and
/// each task's dependencies in order.
pub open spec fn before(i: int, k: int, task: int, dep: int) -> bool {
    i < task || (i == task && k < dep)
}

/// Why a set of tasks cannot be scheduled.
#[derive(Debug, Clone, Copy, PartialEq, Eq, Structural)]
pub enum GraphError {
    /// Two tasks share a name.
    DuplicateIds,
    /// Dependency `dep` of task `task` names no task.
    UnknownDependency { task: usize, dep: usize },
    /// Some chain of dependencies is circular.
    Cycle,
}

/// What `check_graph` answers for the given names and dependencies.
pub open spec fn graph_verdict(ids: Seq<Seq<char>>, deps: Seq<Seq<Seq<char>>>, r: Result<(), GraphError>) -> bool {
    &&& (r is Ok <==> all_distinct(ids) && all_known(ids, deps) && acyclic(ids, deps))
    &&& (r == Err::<(), GraphError>(GraphError::DuplicateIds) <==> !all_distinct(ids))
    &&& (r == Err::<(), GraphError>(GraphError::Cycle) <==> all_distinct(ids) && all_known(ids, deps) && !acyclic(ids, deps))
    &&& (r is Err && r->Err_0 is UnknownDependency <==> all_distinct(ids) && !all_known(ids, deps))
    &&& (r matches Err(GraphError::UnknownDependency { task, dep }) ==> {
        &&& task < deps.len()
        &&& dep < deps[task as int].len()
        &&& !names_task(ids, deps[task as int][dep as int])
        &&& forall|i: int, k: int|
            0 <= i < deps.len() && 0 <= k < deps[i].len() && before(i, k, task as int, dep as int)
                ==> names_task(ids, #[trigger] deps[i][k])
    })
}

/// The position of the first string in `ids` equal to `name`, if any.
fn index_of(ids: &[String], name: &String) -> (r: Option<usize>)
    ensures
        r matches Some(j) ==> j < ids@.len() && ids@[j as int]@ == name@,
        r is None ==> !names_task(names(ids@), name@),
{
    let mut j: usize = 0;
    while j < ids.len()
        invariant
            0 <= j <= ids.len(),
            forall|q: int| 0 <= q < j ==> ids@[q]@ != name@,
        decreases ids.len() - j,
    {
        if str_eq(ids[j].as_str(), name.as_str()) {
            return Some(j);
        }
        j = j + 1;
    }
    proof {
        if names_task(names(ids@), name@) {
            let w = choose|w: int| 0 <= w < ids@.len() && names(ids@)[w] == name@;
            assert(ids@[w]@ == name@);
        }
    }
    None
}

/// The number of `true` entries.
pub open spec fn count_true(s: Seq<bool>) -> nat
    decreases s.len(),
{
    if s.len() == 0 {
        0
    } else {
        count_true(s.drop_last()) + if s.last() { 1nat } else { 0nat }
    }
}

proof fn lemma_count_true_bound(s: Seq<bool>)
    ensures
        count_true(s) <= s.len(),
    decreases s.len(),
{
    if s.len() > 0 {
        lemma_count_true_bound(s.drop_last());
    }
}

proof fn lemma_count_true_none(s: Seq<bool>)
    requires
        forall|v: int| 0 <= v < s.len() ==> !s[v],
    ensures
        count_true(s) == 0,
    decreases s.len(),
{
    if s.len() > 0 {
        lemma_count_true_none(s.drop_last());
    }
}

/// Setting a `false` entry to `true` adds one to the count.
proof fn lemma_count_true_set(s: Seq<bool>, v: int)
    requires
        0 <= v < s.len(),
        !s[v],
    ensures
        count_true(s.update(v, true)) == count_true(s) + 1,
    decreases s.len(),
{
    let t = s.update(v, true);
    if v == s.len() - 1 {
        assert(t.drop_last() == s.drop_last());
    } else {
        assert(t.drop_last() == s.drop_last().update(v, true));
        lemma_count_true_set(s.drop_last(), v);
    }
}

/// The first position of `order` that holds a member of `s`, from one that does.
pub(crate) proof fn lemma_first_member(order: Seq<int>, s: Set<int>, p: int) -> (q: int)
    requires
        0 <= p < order.len(),
        s.contains(order[p]),
    ensures
        0 <= q <= p,
        s.contains(order[q]),
        forall|r: int| 0 <= r < q ==> !s.contains(#[trigger] order[r]),
    decreases p,
{
    if exists|r: int| 0 <= r < p && s.contains(#[trigger] order[r]) {
        let r = choose|r: int| 0 <= r < p && s.contains(#[trigger] order[r]);
        lemma_first_member(order, s, r)
    } else {
        p
    }
}

/// A non-empty set of tasks each of which depends on a task of the set rules
/// out every topological order.
proof fn lemma_stuck_set(ids: Seq<Seq<char>>, deps: Seq<Seq<Seq<char>>>, s: Set<int>, w: int)
    requires
        0 <= w < ids.len(),
        s.contains(w),
        forall|v: int| #[trigger] s.contains(v) ==> 0 <= v < ids.len(),
        forall|v: int| #[trigger] s.contains(v) ==> exists|j: int| s.contains(j) && depends(ids, deps, v, j),
    ensures
        !acyclic(ids, deps),
{
    if acyclic(ids, deps) {
        let order = choose|order: Seq<int>| is_topological_order(ids, deps, order);
        assert(order.contains(w));
        let p = choose|p: int| 0 <= p < order.len() && order[p] == w;
        let q = lemma_first_member(order, s, p);
        let v = order[q];
        assert(s.contains(v));
        let j = choose|j: int| s.contains(j) && depends(ids, deps, v, j);
        assert(order.take(q).contains(j));
        let r = choose|r: int| 0 <= r < q && order.take(q)[r] == j;
        assert(order[r] == j);
        assert(!s.contains(order[r]));
    }
}

/// In an acyclic graph no task depends on itself.
pub proof fn lemma_acyclic_irreflexive(ids: Seq<Seq<char>>, deps: Seq<Seq<Seq<char>>>, t: int)
    requires
        acyclic(ids, deps),
        0 <= t < ids.len(),
    ensures
        !depends(ids, deps, t, t),
{
    let order = choose|order: Seq<int>| is_topological_order(ids, deps, order);
    assert(order.contains(t));
    let p = choose|p: int| 0 <= p < order.len() && order[p] == t;
    let q = lemma_first_member(order, set![t], p);
    if depends(ids, deps, t, t) {
        assert(order.take(q).contains(t));
        let r = choose|r: int| 0 <= r < q && order.take(q)[r] == t;
        assert(set![t].contains(order[r]));
    }
}

/// Checks that task names are distinct, that every dependency names a task
/// (reporting the first that does not), and that the dependencies have no
/// cycle. The cycle check repeatedly takes a task all of whose dependencies
/// have been taken; the graph is acyclic exactly when every task gets taken.
pub fn check_graph(ids: &[String], deps: &[Vec<String>]) -> (r: Result<(), GraphError>)
    requires
        ids@.len() == deps@.len(),
    ensures
        graph_verdict(names(ids@), dep_names(deps@), r),
{
    let ghost gids = names(ids@);
    let ghost gdeps = dep_names(deps@);
    let n = ids.len();
    // Distinct names.
    let mut a: usize = 0;
    while a < n
        invariant
            n == ids@.len(),
            gids == names(ids@),
            0 <= a <= n,
            forall|x: int, y: int| 0 <= x < a && x < y < n ==> gids[x] != gids[y],
        decreases n - a,
    {
        let mut b: usize = a + 1;
        while b < n
            invariant
                n == ids@.len(),
                gids == names(ids@),
                0 <= a < n,
                a + 1 <= b <= n,
                forall|x: int, y: int| 0 <= x < a && x < y < n ==> gids[x] != gids[y],
                forall|y: int| a < y < b ==> gids[a as int] != gids[y],
            decreases n - b,
        {
            if str_eq(ids[a].as_str(), ids[b].as_str()) {
                assert(gids[a as int] == ids@[a as int]@);
                assert(gids[b as int] == ids@[b as int]@);
                assert(!all_distinct(gids));
                return Err(GraphError::DuplicateIds);
            }
            b = b + 1;
        }
        a = a + 1;
    }
    assert(all_distinct(gids));
    // Known dependencies, resolved to positions.
    let mut dep_idx: Vec<Vec<usize>> = Vec::new();
    let mut i: usize = 0;
    while i < n
        invariant
            n == ids@.len(),
            n == deps@.len(),
            gids == names(ids@),
            gdeps == dep_names(deps@),
            all_distinct(gids),
            0 <= i <= n,
            dep_idx@.len() == i,
            forall|x: int| 0 <= x < i ==> (#[trigger] dep_idx@[x])@.len() == gdeps[x].len(),
            forall|x: int, k: int| 0 <= x < i && 0 <= k < gdeps[x].len()
                ==> #[trigger] dep_idx@[x]@[k] < n && gids[dep_idx@[x]@[k] as int] == gdeps[x][k],
            forall|x: int, k: int| 0 <= x < i && 0 <= k < gdeps[x].len()
                ==> names_task(gids, #[trigger] gdeps[x][k]),
        decreases n - i,
    {
        let mut row: Vec<usize> = Vec::new();
        let mut k: usize = 0;
        while k < deps[i].len()
            invariant
                n == ids@.len(),
                n == deps@.len(),
                gids == names(ids@),
                gdeps == dep_names(deps@),
                0 <= i < n,
                all_distinct(gids),
                0 <= k <= deps@[i as int]@.len(),
                row@.len() == k,
                forall|q: int| 0 <= q < k ==> #[trigger] row@[q] < n && gids[row@[q] as int] == gdeps[i as int][q],
                forall|x: int, q: int| 0 <= x < i && 0 <= q < gdeps[x].len()
                    ==> names_task(gids, #[trigger] gdeps[x][q]),
            decreases deps@[i as int]@.len() - k,
        {
            match index_of(ids, &deps[i][k]) {
                Some(j) => {
                    proof {
                        assert(gdeps[i as int] == names(deps@[i as int]@));
                        assert(gdeps[i as int][k as int] == deps@[i as int]@[k as int]@);
                        assert(gids[j as int] == ids@[j as int]@);
                    }
                    row.push(j);
                },
                None => {
                    proof {
                        assert(gdeps[i as int] == names(deps@[i as int]@));
                        assert(gdeps[i as int][k as int] == deps@[i as int]@[k as int]@);
                        assert forall|x: int, q: int|
                            0 <= x < deps@.len() && 0 <= q < gdeps[x].len() && before(x, q, i as int, k as int)
                            implies names_task(gids, #[trigger] gdeps[x][q]) by {
                            if x == i {
                                assert(gids[row@[q] as int] == gdeps[i as int][q]);
                            }
                        }
                        assert(!all_known(gids, gdeps));
                    }
                    return Err(GraphError::UnknownDependency { task: i, dep: k });
                },
            }
            k = k + 1;
        }
        dep_idx.push(row);
        proof {
            assert forall|x: int, q: int| 0 <= x < i + 1 && 0 <= q < gdeps[x].len()
                implies names_task(gids, #[trigger] gdeps[x][q]) by {
                if x == i {
                    assert(gids[dep_idx@[x]@[q] as int] == gdeps[x][q]);
                }
            }
        }
        i = i + 1;
    }
    assert(all_known(gids, gdeps));
    // Every dependency of `x` is the task at position `dep_idx[x][k]`.
    assert forall|x: int, j: int| 0 <= x < n && 0 <= j < n
        implies (depends(gids, gdeps, x, j) <==> exists|k: int| 0 <= k < dep_idx@[x]@.len() && #[trigger] dep_idx@[x]@[k] == j) by {
        if depends(gids, gdeps, x, j) {
            let k = choose|k: int| 0 <= k < gdeps[x].len() && gdeps[x][k] == gids[j];
            let t = dep_idx@[x]@[k] as int;
            assert(gids[t] == gids[j]);
            if t != j {
                if t < j {
                    assert(gids[t] != gids[j]);
                } else {
                    assert(gids[j] != gids[t]);
                }
            }
            assert(dep_idx@[x]@[k] == j);
        }
        if exists|k: int| 0 <= k < dep_idx@[x]@.len() && #[trigger] dep_idx@[x]@[k] == j {
            let k = choose|k: int| 0 <= k < dep_idx@[x]@.len() && #[trigger] dep_idx@[x]@[k] == j;
            assert(gdeps[x][k] == gids[j]);
        }
    }
    // Take tasks whose dependencies have all been taken, one at a time.
    let mut done: Vec<bool> = Vec::new();
    let mut z: usize = 0;
    while z < n
        invariant
            0 <= z <= n,
            done@.len() == z,
            forall|v: int| 0 <= v < z ==> !done@[v],
        decreases n - z,
    {
        done.push(false);
        z = z + 1;
    }
    let ghost mut order: Seq<int> = Seq::empty();
    proof {
        lemma_count_true_none(done@);
    }
    let mut progress = true;
    while progress
        invariant
            n == ids@.len(),
            n == dep_idx@.len(),
            gids == names(ids@),
            gdeps == dep_names(deps@),
            done@.len() == n,
            forall|x: int| 0 <= x < n ==> (#[trigger] dep_idx@[x])@.len() == gdeps[x].len(),
            forall|x: int, k: int| 0 <= x < n && 0 <= k < gdeps[x].len() ==> #[trigger] dep_idx@[x]@[k] < n,
            forall|x: int, j: int| 0 <= x < n && 0 <= j < n
                ==> (depends(gids, gdeps, x, j) <==> exists|k: int| 0 <= k < dep_idx@[x]@.len() && #[trigger] dep_idx@[x]@[k] == j),
            forall|p: int| 0 <= p < order.len() ==> 0 <= #[trigger] order[p] < n,
            forall|v: int| 0 <= v < n ==> (done@[v] <==> #[trigger] order.contains(v)),
            forall|p: int, j: int| 0 <= p < order.len() && 0 <= j < n && #[trigger] depends(gids, gdeps, order[p], j)
                ==> order.take(p).contains(j),
            !progress ==> forall|v: int| 0 <= v < n && !done@[v]
                ==> exists|k: int| 0 <= k < dep_idx@[v]@.len() && !done@[#[trigger] dep_idx@[v]@[k] as int],
        decreases n - count_true(done@), if progress { 1int } else { 0int },
    {
        proof {
            lemma_count_true_bound(done@);
        }
        progress = false;
        let mut v: usize = 0;
        let mut found: Option<usize> = None;
        while v < n && found.is_none()
            invariant
                n == dep_idx@.len(),
                done@.len() == n,
                forall|x: int, k: int| 0 <= x < n && 0 <= k < gdeps[x].len() ==> #[trigger] dep_idx@[x]@[k] < n,
                forall|x: int| 0 <= x < n ==> (#[trigger] dep_idx@[x])@.len() == gdeps[x].len(),
                0 <= v <= n,
                found matches Some(c) ==> c < n && !done@[c as int]
                    && forall|k: int| 0 <= k < dep_idx@[c as int]@.len() ==> done@[#[trigger] dep_idx@[c as int]@[k] as int],
                found is None ==> forall|u: int| 0 <= u < v && !done@[u]
                    ==> exists|k: int| 0 <= k < dep_idx@[u]@.len() && !done@[#[trigger] dep_idx@[u]@[k] as int],
            decreases n - v, if found is None { 1int } else { 0int },
        {
            if !done[v] {
                let mut ready = true;
                let mut k: usize = 0;
                while k < dep_idx[v].len()
                    invariant
                        n == dep_idx@.len(),
                        done@.len() == n,
                        0 <= v < n,
                        forall|x: int, q: int| 0 <= x < n && 0 <= q < gdeps[x].len() ==> #[trigger] dep_idx@[x]@[q] < n,
                        forall|x: int| 0 <= x < n ==> (#[trigger] dep_idx@[x])@.len() == gdeps[x].len(),
                        0 <= k <= dep_idx@[v as int]@.len(),
                        ready ==> forall|q: int| 0 <= q < k ==> done@[#[trigger] dep_idx@[v as int]@[q] as int],
                        !ready ==> exists|q: int| 0 <= q < dep_idx@[v as int]@.len() && !done@[#[trigger] dep_idx@[v as int]@[q] as int],
                    decreases dep_idx@[v as int]@.len() - k,
                {
                    if !done[dep_idx[v][k]] {
                        ready = false;
                    }
                    k = k + 1;
                }
                if ready {
                    found = Some(v);
                }
            }
            if found.is_none() {
                v = v + 1;
            }
        }
        match found {
            Some(c) => {
                proof {
                    lemma_count_true_set(done@, c as int);
                    let old_order = order;
                    order = order.push(c as int);
                    assert forall|p: int| 0 <= p < order.len() implies 0 <= #[trigger] order[p] < n by {
                        if p < old_order.len() {
                            assert(order[p] == old_order[p]);
                        }
                    }
                    assert forall|p: int, j: int| 0 <= p < order.len() && 0 <= j < n
                        && #[trigger] depends(gids, gdeps, order[p], j) implies order.take(p).contains(j) by {
                        if p < old_order.len() {
                            assert(order[p] == old_order[p]);
                            assert(order.take(p) == old_order.take(p));
                        } else {
                            let k = choose|k: int| 0 <= k < dep_idx@[c as int]@.len() && #[trigger] dep_idx@[c as int]@[k] == j;
                            assert(done@[dep_idx@[c as int]@[k] as int]);
                            assert(old_order.contains(j));
                            assert(order.take(p) == old_order);
                        }
                    }
                    assert forall|u: int| 0 <= u < n implies (done@.update(c as int, true)[u] <==> #[trigger] order.contains(u)) by {
                        if old_order.contains(u) {
                            let w = choose|w: int| 0 <= w < old_order.len() && old_order[w] == u;
                            assert(order[w] == u);
                        }
                        if order.contains(u) && u != c {
                            let w = choose|w: int| 0 <= w < order.len() && order[w] == u;
                            assert(w < old_order.len());
                            assert(old_order[w] == u);
                        }
                        if u == c {
                            assert(order[old_order.len() as int] == u);
                        }
                    }
                }
                done.set(c, true);
                proof {
                    lemma_count_true_bound(done@);
                }
                progress = true;
            },
            None => {},
        }
    }
    // Every task taken: the order of taking is a topological order.
    let mut w: usize = 0;
    while w < n
        invariant
            n == ids@.len(),
            n == dep_idx@.len(),
            gids == names(ids@),
            gdeps == dep_names(deps@),
            done@.len() == n,
            0 <= w <= n,
            forall|u: int| 0 <= u < w ==> done@[u],
            forall|x: int| 0 <= x < n ==> (#[trigger] dep_idx@[x])@.len() == gdeps[x].len(),
            forall|x: int, k: int| 0 <= x < n && 0 <= k < gdeps[x].len() ==> #[trigger] dep_idx@[x]@[k] < n,
            forall|x: int, j: int| 0 <= x < n && 0 <= j < n
                ==> (depends(gids, gdeps, x, j) <==> exists|k: int| 0 <= k < dep_idx@[x]@.len() && #[trigger] dep_idx@[x]@[k] == j),
            forall|p: int| 0 <= p < order.len() ==> 0 <= #[trigger] order[p] < n,
            forall|v: int| 0 <= v < n ==> (done@[v] <==> #[trigger] order.contains(v)),
            forall|p: int, j: int| 0 <= p < order.len() && 0 <= j < n && #[trigger] depends(gids, gdeps, order[p], j)
                ==> order.take(p).contains(j),
            forall|v: int| 0 <= v < n && !done@[v]
                ==> exists|k: int| 0 <= k < dep_idx@[v]@.len() && !done@[#[trigger] dep_idx@[v]@[k] as int],
            all_distinct(gids),
            all_known(gids, gdeps),
        decreases n - w,
    {
        if !done[w] {
            proof {
                let s = Set::new(|u: int| 0 <= u < n && !done@[u]);
                assert forall|u: int| #[trigger] s.contains(u)
                    implies exists|j: int| s.contains(j) && depends(gids, gdeps, u, j) by {
                    let k = choose|k: int| 0 <= k < dep_idx@[u]@.len() && !done@[#[trigger] dep_idx@[u]@[k] as int];
                    let j = dep_idx@[u]@[k] as int;
                    assert(s.contains(j));
                    assert(depends(gids, gdeps, u, j));
                }
                lemma_stuck_set(gids, gdeps, s, w as int);
            }
            return Err(GraphError::Cycle);
        }
        w = w + 1;
    }
    proof {
        assert(is_topological_order(gids, gdeps, order));
    }
    Ok(())
}

} // verus!
