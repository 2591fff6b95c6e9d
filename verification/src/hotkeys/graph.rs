//! Reachability in a directed graph given by adjacency lists over vertices `0..n`.

use vstd::prelude::*;

verus! {

/// The successor lists of a graph, as sequences.
pub open spec fn successors(adj: Seq<Vec<usize>>) -> Seq<Seq<usize>> {
    adj.map_values(|targets: Vec<usize>| targets@)
}

/// Every successor names a vertex of the graph.
pub open spec fn well_formed(g: Seq<Seq<usize>>) -> bool {
    forall|a: int, k: int| 0 <= a < g.len() && 0 <= k < g[a].len() ==> #[trigger] g[a][k] < g.len()
}

pub open spec fn edge(g: Seq<Seq<usize>>, a: int, b: int) -> bool {
    &&& 0 <= a < g.len()
    &&& 0 <= b < g.len()
    &&& exists|k: int| 0 <= k < g[a].len() && g[a][k] as int == b
}

/// `p` is a walk along edges of `g` (a single vertex is a walk).
pub open spec fn is_walk(g: Seq<Seq<usize>>, p: Seq<int>) -> bool {
    &&& p.len() > 0
    &&& forall|k: int| 0 <= k < p.len() ==> 0 <= #[trigger] p[k] < g.len()
    &&& forall|k: int| 0 <= k < p.len() - 1 ==> #[trigger] edge(g, p[k], p[k + 1])
}

/// There is a walk from `a` to `b`.
pub open spec fn reaches(g: Seq<Seq<usize>>, a: int, b: int) -> bool {
    exists|p: Seq<int>| is_walk(g, p) && p[0] == a && p.last() == b
}

pub proof fn lemma_reaches_self(g: Seq<Seq<usize>>, a: int)
    requires
        0 <= a < g.len(),
    ensures
        reaches(g, a, a),
{
    let p = seq![a];
    assert(is_walk(g, p));
    assert(p[0] == a && p.last() == a);
}

pub proof fn lemma_reaches_step(g: Seq<Seq<usize>>, a: int, b: int, c: int)
    requires
        reaches(g, a, b),
        edge(g, b, c),
    ensures
        reaches(g, a, c),
{
    let p = choose|p: Seq<int>| is_walk(g, p) && p[0] == a && p.last() == b;
    let q = p.push(c);
    assert forall|k: int| 0 <= k < q.len() - 1 implies #[trigger] edge(g, q[k], q[k + 1]) by {
        if k < p.len() - 1 {
            assert(edge(g, p[k], p[k + 1]));
        }
    }
    assert(is_walk(g, q));
    assert(q[0] == a && q.last() == c);
}

/// A vertex set that holds `a` and is closed under edges holds everything `a` reaches.
pub proof fn lemma_closed_set_holds_reachable(g: Seq<Seq<usize>>, seen: Seq<bool>, a: int, b: int)
    requires
        seen.len() == g.len(),
        0 <= a < g.len(),
        seen[a],
        forall|u: int, v: int| #![trigger seen[u], edge(g, u, v)] 0 <= u < g.len() && seen[u] && edge(g, u, v) ==> seen[v],
        reaches(g, a, b),
    ensures
        seen[b],
{
    let p = choose|p: Seq<int>| is_walk(g, p) && p[0] == a && p.last() == b;
    lemma_closed_walk(g, seen, p, p.len() - 1);
}

proof fn lemma_closed_walk(g: Seq<Seq<usize>>, seen: Seq<bool>, p: Seq<int>, k: int)
    requires
        seen.len() == g.len(),
        is_walk(g, p),
        seen[p[0]],
        0 <= k < p.len(),
        forall|u: int, v: int| #![trigger seen[u], edge(g, u, v)] 0 <= u < g.len() && seen[u] && edge(g, u, v) ==> seen[v],
    ensures
        seen[p[k]],
    decreases k,
{
    if k > 0 {
        lemma_closed_walk(g, seen, p, k - 1);
        let j = k - 1;
        assert(edge(g, p[j], p[j + 1]));
        assert(0 <= p[j] < g.len());
    }
}

/// Marks every vertex that `source` reaches.
pub fn reachable_from(adj: &Vec<Vec<usize>>, source: usize) -> (seen: Vec<bool>)
    requires
        source < adj@.len(),
        well_formed(successors(adj@)),
    ensures
        seen@.len() == adj@.len(),
        forall|t: int| 0 <= t < adj@.len() ==> seen@[t] == reaches(successors(adj@), source as int, t),
{
    let ghost g = successors(adj@);
    let n = adj.len();
    let mut seen: Vec<bool> = Vec::new();
    let mut i: usize = 0;
    while i < n
        invariant
            n == adj@.len(),
            0 <= i <= n,
            seen@.len() == i,
            forall|t: int| 0 <= t < i ==> !seen@[t],
        decreases n - i,
    {
        seen.push(false);
        i += 1;
    }
    seen.set(source, true);
    proof {
        lemma_reaches_self(g, source as int);
    }
    let mut stack: Vec<usize> = Vec::new();
    stack.push(source);
    proof {
        assert(stack@[0] == source);
        assert(stack@.contains(source));
        assert forall|u: int, v: int|
            0 <= u < n && seen@[u] && !stack@.contains(u as usize) && edge(g, u, v) implies seen@[v] by {
            assert(u == source);
        }
    }
    while stack.len() > 0
        invariant
            g == successors(adj@),
            well_formed(g),
            n == adj@.len() == g.len(),
            source < n,
            seen@.len() == n,
            seen@[source as int],
            stack@.no_duplicates(),
            forall|k: int| 0 <= k < stack@.len() ==> #[trigger] stack@[k] < n && seen@[stack@[k] as int],
            forall|t: int| 0 <= t < n && seen@[t] ==> reaches(g, source as int, t),
            forall|u: int, v: int|
                #![trigger seen@[u], edge(g, u, v)]
                0 <= u < n && seen@[u] && !stack@.contains(u as usize) && edge(g, u, v) ==> seen@[v],
        decreases n - seen@.filter(|b: bool| b).len(), stack@.len(),
    {
        let ghost seen_before = seen@;
        let ghost stack_before = stack@;
        let u = stack.pop().unwrap();
        proof {
            assert(stack_before == stack@.push(u));
            assert(!stack@.contains(u)) by {
                if stack@.contains(u) {
                    let k = choose|k: int| 0 <= k < stack@.len() && stack@[k] == u;
                    assert(stack_before[k] == stack_before[stack_before.len() - 1]);
                }
            }
        }
        let targets = &adj[u];
        let mut k: usize = 0;
        let ghost pushed = false;
        while k < targets.len()
            invariant
                g == successors(adj@),
                well_formed(g),
                n == adj@.len() == g.len(),
                u < n,
                targets@ == g[u as int],
                0 <= k <= targets@.len(),
                source < n,
                seen@.len() == n,
                seen@[source as int],
                seen@[u as int],
                !stack@.contains(u),
                stack@.no_duplicates(),
                forall|j: int| 0 <= j < stack@.len() ==> #[trigger] stack@[j] < n && seen@[stack@[j] as int],
                forall|t: int| 0 <= t < n && seen@[t] ==> reaches(g, source as int, t),
                forall|j: int| 0 <= j < k ==> seen@[#[trigger] targets@[j] as int],
                forall|x: int, v: int|
                    #![trigger seen@[x], edge(g, x, v)]
                    0 <= x < n && x != u && seen@[x] && !stack@.contains(x as usize) && edge(g, x, v) ==> seen@[v],
                forall|t: int| 0 <= t < n && seen_before[t] ==> seen@[t],
                seen@.filter(|b: bool| b).len() >= seen_before.filter(|b: bool| b).len(),
                stack@.len() >= stack_before.len() - 1,
                seen@.filter(|b: bool| b).len() == seen_before.filter(|b: bool| b).len() ==> stack@.len() == stack_before.len() - 1,
            decreases targets@.len() - k,
        {
            let v = targets[k];
            proof {
                assert(g[u as int][k as int] < g.len());
            }
            if !seen[v] {
                let ghost before = seen@;
                seen.set(v, true);
                proof {
                    assert(g[u as int][k as int] as int == v as int);
                    assert(edge(g, u as int, v as int));
                    lemma_reaches_step(g, source as int, u as int, v as int);
                    lemma_count_true_increases(before, v as int);
                    assert(!stack@.contains(v)) by {
                        if stack@.contains(v) {
                            let j = choose|j: int| 0 <= j < stack@.len() && stack@[j] == v;
                        }
                    }
                }
                let ghost stack_prev = stack@;
                stack.push(v);
                proof {
                    assert(stack@[stack@.len() - 1] == v);
                    assert forall|x: usize| #[trigger] stack_prev.contains(x) implies stack@.contains(x) by {
                        let j = choose|j: int| 0 <= j < stack_prev.len() && stack_prev[j] == x;
                        assert(stack@[j] == x);
                    }
                    assert(stack@.contains(v));
                }
            }
            k += 1;
        }
        proof {
            assert forall|v: int| edge(g, u as int, v) implies seen@[v] by {
                let j = choose|j: int| 0 <= j < targets@.len() && targets@[j] as int == v;
                assert(seen@[targets@[j] as int]);
            }
        }
    }
    proof {
        assert forall|t: int| 0 <= t < adj@.len() implies seen@[t] == reaches(g, source as int, t) by {
            if reaches(g, source as int, t) {
                lemma_closed_set_holds_reachable(g, seen@, source as int, t);
            }
        }
    }
    seen
}

/// Setting an unset flag increases the number of set flags.
pub proof fn lemma_count_true_increases(flags: Seq<bool>, i: int)
    requires
        0 <= i < flags.len(),
        !flags[i],
    ensures
        flags.update(i, true).filter(|b: bool| b).len() == flags.filter(|b: bool| b).len() + 1,
        flags.update(i, true).filter(|b: bool| b).len() <= flags.len(),
    decreases flags.len(),
{
    let p = |b: bool| b;
    let u = flags.update(i, true);
    reveal_with_fuel(Seq::filter, 1);
    if i == flags.len() - 1 {
        assert(u.drop_last() == flags.drop_last());
        u.drop_last().lemma_filter_len(p);
    } else {
        assert(u.drop_last() == flags.drop_last().update(i, true));
        lemma_count_true_increases(flags.drop_last(), i);
        assert(u.last() == flags.last());
    }
    u.lemma_filter_len(p);
}

} // verus!
