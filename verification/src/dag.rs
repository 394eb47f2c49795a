//! The dependency graph: boot order, severed cycles, bounded depth.
use vstd::prelude::*;

use crate::names::{copy_names, lists, texts, NameMap, NameSet};
use crate::schema::ServiceSchema;
use crate::text::{debug_string, decimal_string, push_text};
use crate::SysXError;

verus! {

/// Longest dependency chain that is accepted, counted in edges.
pub const MAX_DAG_DEPTH: usize = 16;

// ---------------------------------------------------------------------------
// Model
// ---------------------------------------------------------------------------

/// A dependency graph: each service with the services it depends on.
pub type Graph = Map<Seq<char>, Seq<Seq<char>>>;

/// The graph that a map of name lists stands for.
pub open spec fn graph_of(m: Map<Seq<char>, Vec<String>>) -> Graph {
    Map::new(|k: Seq<char>| m.contains_key(k), |k: Seq<char>| texts(m[k]@))
}

/// Whether `n` and all it depends on, directly or not, can be started in at most `k`
/// rounds after the first: a service without dependencies starts in the first round, and
/// any other service in the round after the last of its dependencies.
pub open spec fn grounded_within(g: Graph, n: Seq<char>, k: nat) -> bool
    decreases k,
{
    g.contains_key(n) && (g[n].len() > 0 ==> k > 0) && forall|i: int|
        0 <= i < g[n].len() ==> grounded_within(g, #[trigger] g[n][i], (k - 1) as nat)
}

/// Whether `n` can be started at all: neither on a cycle, nor dependent on one.
pub open spec fn grounded(g: Graph, n: Seq<char>) -> bool {
    exists|k: nat| grounded_within(g, n, k)
}

/// Whether the longest chain of dependencies below `n` has exactly `d` edges.
pub open spec fn has_depth(g: Graph, n: Seq<char>, d: nat) -> bool {
    grounded_within(g, n, d) && (d > 0 ==> !grounded_within(g, n, (d - 1) as nat))
}

/// Whether every service that can be started has a depth of at most `d`.
pub open spec fn depth_at_most(g: Graph, d: nat) -> bool {
    forall|n: Seq<char>| #[trigger] grounded(g, n) ==> grounded_within(g, n, d)
}

/// Whether `order` lists exactly the services that can be started, each once, and each
/// behind all the services it depends on.
pub open spec fn is_boot_order(g: Graph, order: Seq<Seq<char>>) -> bool {
    &&& order.no_duplicates()
    &&& forall|n: Seq<char>| #[trigger] order.contains(n) <==> grounded(g, n)
    &&& after_dependencies(g, order)
}

/// Whether each service of `order` comes behind all the services it depends on.
pub open spec fn after_dependencies(g: Graph, order: Seq<Seq<char>>) -> bool {
    forall|i: int, j: int|
        0 <= i < order.len() && 0 <= j < g[order[i]].len() ==> order.take(i).contains(
            #[trigger] g[order[i]][j],
        )
}

/// Whether `dropped` lists exactly the services that cannot be started, each once.
pub open spec fn is_severed(g: Graph, dropped: Seq<Seq<char>>) -> bool {
    &&& dropped.no_duplicates()
    &&& forall|n: Seq<char>| #[trigger]
        dropped.contains(n) <==> g.contains_key(n) && !grounded(g, n)
}

/// How often `x` occurs in `s`.
pub open spec fn occurrences(s: Seq<Seq<char>>, x: Seq<char>) -> nat
    decreases s.len(),
{
    if s.len() == 0 {
        0
    } else {
        occurrences(s.drop_last(), x) + if s.last() == x {
            1nat
        } else {
            0nat
        }
    }
}

/// The list of `m` under `k`, or the empty list.
pub open spec fn list_at(m: Graph, k: Seq<char>) -> Seq<Seq<char>> {
    if m.contains_key(k) {
        m[k]
    } else {
        Seq::empty()
    }
}

/// Whether `rev` holds the edges of `g` reversed: `v` occurs in the list of `d` as often
/// as `d` occurs in the list of `v` in `g`, and no list of `rev` is empty.
pub open spec fn is_reverse(g: Graph, rev: Graph) -> bool {
    &&& forall|d: Seq<char>, v: Seq<char>| #[trigger]
        occurrences(list_at(rev, d), v) == occurrences(list_at(g, v), d)
    &&& forall|d: Seq<char>| #[trigger] rev.contains_key(d) ==> rev[d].len() > 0
}

/// How many entries of `deps` are not in `done`.
spec fn pending(deps: Seq<Seq<char>>, done: Set<Seq<char>>) -> nat
    decreases deps.len(),
{
    if deps.len() == 0 {
        0
    } else {
        pending(deps.drop_last(), done) + if done.contains(deps.last()) {
            0nat
        } else {
            1nat
        }
    }
}

// ---------------------------------------------------------------------------
// Lemmas on counting
// ---------------------------------------------------------------------------

proof fn lemma_pending_insert(deps: Seq<Seq<char>>, done: Set<Seq<char>>, u: Seq<char>)
    requires
        !done.contains(u),
    ensures
        pending(deps, done.insert(u)) + occurrences(deps, u) == pending(deps, done),
    decreases deps.len(),
{
    if deps.len() > 0 {
        lemma_pending_insert(deps.drop_last(), done, u);
    }
}

proof fn lemma_pending_zero(deps: Seq<Seq<char>>, done: Set<Seq<char>>)
    ensures
        pending(deps, done) == 0 <==> (forall|i: int|
            0 <= i < deps.len() ==> done.contains(#[trigger] deps[i])),
    decreases deps.len(),
{
    if deps.len() > 0 {
        let front = deps.drop_last();
        lemma_pending_zero(front, done);
        if pending(deps, done) == 0 {
            assert forall|i: int| 0 <= i < deps.len() implies done.contains(
                #[trigger] deps[i],
            ) by {
                if i < front.len() {
                    assert(front[i] == deps[i]);
                }
            }
        }
        if forall|i: int| 0 <= i < deps.len() ==> done.contains(#[trigger] deps[i]) {
            assert forall|i: int| 0 <= i < front.len() implies done.contains(
                #[trigger] front[i],
            ) by {
                assert(front[i] == deps[i]);
            }
            assert(deps.last() == deps[deps.len() - 1]);
        }
    }
}

proof fn lemma_pending_empty(deps: Seq<Seq<char>>)
    ensures
        pending(deps, Set::empty()) == deps.len(),
    decreases deps.len(),
{
    if deps.len() > 0 {
        lemma_pending_empty(deps.drop_last());
    }
}

/// One more name: what the longer prefix of `ns` contains. A name that occurs once is new.
proof fn lemma_prefix_grows(ns: Seq<Seq<char>>, i: int)
    requires
        0 <= i < ns.len(),
    ensures
        ns.take(i + 1) == ns.take(i).push(ns[i]),
        forall|v: Seq<char>| #[trigger]
            ns.take(i + 1).contains(v) == (ns.take(i).contains(v) || v == ns[i]),
        ns.no_duplicates() ==> !ns.take(i).contains(ns[i]),
{
    let taken = ns.take(i);
    let grown = ns.take(i + 1);
    assert(grown =~= taken.push(ns[i]));
    assert forall|v: Seq<char>| #[trigger] grown.contains(v) == (taken.contains(v) || v == ns[i]) by {
        if taken.contains(v) {
            assert(grown[taken.index_of(v)] == v);
        }
        assert(grown[i] == ns[i]);
    }
    if ns.no_duplicates() && taken.contains(ns[i]) {
        assert(ns[taken.index_of(ns[i])] == ns[i]);
    }
}

proof fn lemma_occurrences_take(s: Seq<Seq<char>>, x: Seq<char>, j: int)
    requires
        0 <= j < s.len(),
    ensures
        occurrences(s.take(j + 1), x) == occurrences(s.take(j), x) + (if s[j] == x {
            1nat
        } else {
            0nat
        }),
{
    assert(s.take(j + 1).drop_last() == s.take(j));
}

proof fn lemma_occurrences_prefix(s: Seq<Seq<char>>, x: Seq<char>, j: int)
    requires
        0 <= j <= s.len(),
    ensures
        occurrences(s.take(j), x) <= occurrences(s, x),
    decreases s.len() - j,
{
    if j == s.len() {
        assert(s.take(j) == s);
    } else {
        lemma_occurrences_take(s, x, j);
        lemma_occurrences_prefix(s, x, j + 1);
    }
}

proof fn lemma_occurrences_push(s: Seq<Seq<char>>, y: Seq<char>, x: Seq<char>)
    ensures
        occurrences(s.push(y), x) == occurrences(s, x) + (if y == x {
            1nat
        } else {
            0nat
        }),
{
    assert(s.push(y).drop_last() == s);
}

/// A name occurs in a list exactly if it occurs there at least once.
pub proof fn lemma_occurrences_contains(s: Seq<Seq<char>>, x: Seq<char>)
    ensures
        occurrences(s, x) > 0 <==> s.contains(x),
    decreases s.len(),
{
    if s.len() > 0 {
        let front = s.drop_last();
        lemma_occurrences_contains(front, x);
        if front.contains(x) {
            assert(s[front.index_of(x)] == x);
        }
        if s.contains(x) {
            let i = s.index_of(x);
            if i < front.len() {
                assert(front[i] == x);
            }
        }
        assert(s.last() == s[s.len() - 1]);
    }
}

// ---------------------------------------------------------------------------
// Reversed edges
// ---------------------------------------------------------------------------

/// Reversed edges: for each name, the services that list it as a dependency.
pub fn build_dependents(graph: &NameMap<Vec<String>>) -> (rev: NameMap<Vec<String>>)
    ensures
        is_reverse(graph_of(graph@), graph_of(rev@)),
{
    let ghost g = graph_of(graph@);
    let nodes = graph.names();
    let ghost ns = texts(nodes@);
    let mut rev: NameMap<Vec<String>> = NameMap::new();
    let mut i: usize = 0;
    while i < nodes.len()
        invariant
            i <= nodes.len(),
            g == graph_of(graph@),
            ns == texts(nodes@),
            ns.no_duplicates(),
            ns.to_set() == graph@.dom(),
            forall|d: Seq<char>, v: Seq<char>| #[trigger]
                occurrences(list_at(graph_of(rev@), d), v) == (if ns.take(i as int).contains(v) {
                    occurrences(list_at(g, v), d)
                } else {
                    0nat
                }),
            forall|d: Seq<char>| #[trigger]
                graph_of(rev@).contains_key(d) ==> graph_of(rev@)[d].len() > 0,
        decreases nodes.len() - i,
    {
        let node = &nodes[i];
        assert(ns[i as int] == node@);
        assert(graph@.dom().contains(node@)) by {
            assert(ns.contains(ns[i as int]));
        }
        let ghost mut ds: Seq<Seq<char>> = Seq::empty();
        match graph.get(node.as_str()) {
            None => {
            },
            Some(deps) => {
                proof {
                    ds = texts(deps@);
                    assert(list_at(g, node@) == ds);
                }
                let mut j: usize = 0;
                assert(ds.take(0) == Seq::<Seq<char>>::empty());
                assert(!ns.take(i as int).contains(node@)) by {
                    if ns.take(i as int).contains(node@) {
                        let k = ns.take(i as int).index_of(node@);
                        assert(ns[k] == ns[i as int]);
                    }
                }
                while j < deps.len()
                    invariant
                        j <= deps.len(),
                        i < nodes.len(),
                        g == graph_of(graph@),
                        ds == texts(deps@),
                        list_at(g, node@) == ds,
                        !ns.take(i as int).contains(node@),
                        forall|d: Seq<char>, v: Seq<char>| #[trigger]
                            occurrences(list_at(graph_of(rev@), d), v) == (if ns.take(
                                i as int,
                            ).contains(v) {
                                occurrences(list_at(g, v), d)
                            } else if v == node@ {
                                occurrences(ds.take(j as int), d)
                            } else {
                                0nat
                            }),
                        forall|d: Seq<char>| #[trigger]
                            graph_of(rev@).contains_key(d) ==> graph_of(rev@)[d].len() > 0,
                    decreases deps.len() - j,
                {
                    let dep = &deps[j];
                    let ghost before = graph_of(rev@);
                    let mut list = match rev.remove(dep.as_str()) {
                        Some(l) => l,
                        None => Vec::new(),
                    };
                    let ghost old_list = texts(list@);
                    assert(old_list == list_at(before, dep@));
                    list.push(node.clone());
                    let ghost new_list = texts(list@);
                    assert(new_list == old_list.push(node@));
                    rev.insert(dep.as_str(), list);
                    proof {
                        let after = graph_of(rev@);
                        assert forall|d: Seq<char>, v: Seq<char>| #[trigger]
                            occurrences(list_at(after, d), v) == (if ns.take(i as int).contains(
                                v,
                            ) {
                                occurrences(list_at(g, v), d)
                            } else if v == node@ {
                                occurrences(ds.take(j + 1), d)
                            } else {
                                0nat
                            }) by {
                            lemma_occurrences_take(ds, d, j as int);
                            assert(ds[j as int] == dep@);
                            assert(occurrences(list_at(before, d), v) == (if ns.take(
                                i as int,
                            ).contains(v) {
                                occurrences(list_at(g, v), d)
                            } else if v == node@ {
                                occurrences(ds.take(j as int), d)
                            } else {
                                0nat
                            }));
                            if d == dep@ {
                                assert(list_at(after, d) == new_list);
                                lemma_occurrences_push(old_list, node@, v);
                            } else {
                                assert(list_at(after, d) == list_at(before, d));
                            }
                        }
                        assert forall|d: Seq<char>| #[trigger]
                            after.contains_key(d) implies after[d].len() > 0 by {
                            if d != dep@ {
                                assert(before.contains_key(d));
                                assert(after[d] == before[d]);
                            }
                        }
                    }
                    j += 1;
                }
                assert(ds.take(j as int) == ds);
            },
        }
        proof {
            lemma_prefix_grows(ns, i as int);
        }
        i += 1;
    }
    proof {
        assert(ns.take(ns.len() as int) == ns);
        assert forall|d: Seq<char>, v: Seq<char>| #[trigger]
            occurrences(list_at(graph_of(rev@), d), v) == occurrences(list_at(g, v), d) by {
            if !ns.contains(v) {
                assert(!ns.to_set().contains(v));
                assert(list_at(g, v) == Seq::<Seq<char>>::empty());
            }
        }
    }
    rev
}

// ---------------------------------------------------------------------------
// Topological order
// ---------------------------------------------------------------------------

/// What [`kahn_sort_with_leftover`] keeps true while it works. `order` holds the services
/// placed so far; the first `head` of them have been counted off from their dependents,
/// and `counted` entries of the dependents of the next one, `sucs`, as well.
spec fn kahn_inv(
    g: Graph,
    degree: Map<Seq<char>, usize>,
    order: Seq<Seq<char>>,
    head: int,
    sucs: Seq<Seq<char>>,
    counted: int,
) -> bool {
    &&& 0 <= head <= order.len()
    &&& 0 <= counted <= sucs.len()
    &&& order.no_duplicates()
    &&& degree.dom() == g.dom()
    &&& forall|v: Seq<char>| #[trigger]
        g.contains_key(v) ==> degree[v] == pending(g[v], order.take(head).to_set()) - occurrences(
            sucs.take(counted),
            v,
        )
    &&& forall|v: Seq<char>| #[trigger]
        order.contains(v) <==> g.contains_key(v) && degree[v] == 0
    &&& after_dependencies(g, order)
}

/// Whoever is placed can be started.
proof fn lemma_placed_grounded(g: Graph, order: Seq<Seq<char>>, p: int)
    requires
        0 <= p < order.len(),
        after_dependencies(g, order),
        forall|i: int| 0 <= i < order.len() ==> g.contains_key(#[trigger] order[i]),
    ensures
        grounded_within(g, order[p], p as nat),
    decreases p,
{
    let n = order[p];
    let k = p as nat;
    assert(g.contains_key(n));
    if g[n].len() > 0 {
        assert(order.take(p).contains(g[order[p]][0]));
    }
    assert forall|i: int| 0 <= i < g[n].len() implies grounded_within(
        g,
        #[trigger] g[n][i],
        (k - 1) as nat,
    ) by {
        assert(order.take(p).contains(g[order[p]][i]));
        let q = order.take(p).index_of(g[n][i]);
        assert(order[q] == g[n][i]);
        lemma_placed_grounded(g, order, q);
        lemma_grounded_monotone(g, order[q], q as nat, (k - 1) as nat);
    }
}

/// More rounds do not hurt.
pub proof fn lemma_grounded_monotone(g: Graph, n: Seq<char>, k: nat, m: nat)
    requires
        grounded_within(g, n, k),
        k <= m,
    ensures
        grounded_within(g, n, m),
    decreases k,
{
    assert forall|i: int| 0 <= i < g[n].len() implies grounded_within(
        g,
        #[trigger] g[n][i],
        (m - 1) as nat,
    ) by {
        assert(grounded_within(g, g[n][i], (k - 1) as nat));
        lemma_grounded_monotone(g, g[n][i], (k - 1) as nat, (m - 1) as nat);
    }
}

/// Whoever can be started is placed, once nobody is left to be counted off.
proof fn lemma_grounded_placed(
    g: Graph,
    degree: Map<Seq<char>, usize>,
    order: Seq<Seq<char>>,
    n: Seq<char>,
    k: nat,
)
    requires
        kahn_inv(g, degree, order, order.len() as int, Seq::empty(), 0),
        grounded_within(g, n, k),
    ensures
        order.contains(n),
    decreases k,
{
    let done = order.take(order.len() as int).to_set();
    assert(order.take(order.len() as int) == order);
    assert forall|i: int| 0 <= i < g[n].len() implies done.contains(#[trigger] g[n][i]) by {
        assert(grounded_within(g, g[n][i], (k - 1) as nat));
        lemma_grounded_placed(g, degree, order, g[n][i], (k - 1) as nat);
    }
    lemma_pending_zero(g[n], done);
    assert(degree[n] == 0);
}

/// Counts the dependencies of every service, and places those that have none.
fn initial_degrees(graph: &NameMap<Vec<String>>) -> (r: (NameMap<usize>, Vec<String>))
    ensures
        kahn_inv(graph_of(graph@), r.0@, texts(r.1@), 0, Seq::empty(), 0),
{
    let ghost g = graph_of(graph@);
    let nodes = graph.names();
    let ghost ns = texts(nodes@);
    let mut in_degree: NameMap<usize> = NameMap::new();
    let mut order: Vec<String> = Vec::new();
    let mut i: usize = 0;
    while i < nodes.len()
        invariant
            i <= nodes.len(),
            g == graph_of(graph@),
            ns == texts(nodes@),
            ns.no_duplicates(),
            ns.to_set() == graph@.dom(),
            in_degree@.dom() == ns.take(i as int).to_set(),
            forall|v: Seq<char>| #[trigger]
                ns.take(i as int).contains(v) ==> in_degree@[v] == g[v].len(),
            texts(order@).no_duplicates(),
            forall|v: Seq<char>| #[trigger]
                texts(order@).contains(v) <==> ns.take(i as int).contains(v) && in_degree@[v] == 0,
        decreases nodes.len() - i,
    {
        let node = &nodes[i];
        let ghost taken = ns.take(i as int);
        let ghost before = texts(order@);
        let ghost old_degree = in_degree@;
        proof {
            assert(ns[i as int] == node@);
            assert(ns.contains(ns[i as int]));
            assert(graph@.dom().contains(node@));
            lemma_prefix_grows(ns, i as int);
        }
        let degree: usize = match graph.get(node.as_str()) {
            Some(deps) => deps.len(),
            None => 0,
        };
        in_degree.insert(node.as_str(), degree);
        if degree == 0 {
            order.push(node.clone());
            proof {
                assert(texts(order@) == before.push(node@));
                lemma_push_distinct(before, node@);
            }
        }
        proof {
            assert(in_degree@.dom() =~= ns.take(i + 1).to_set());
            assert forall|v: Seq<char>| #[trigger]
                ns.take(i + 1).contains(v) implies in_degree@[v] == g[v].len() by {
                assert(taken.contains(v) || v == node@);
            }
            assert forall|v: Seq<char>| #[trigger]
                texts(order@).contains(v) <==> ns.take(i + 1).contains(v) && in_degree@[v] == 0 by {
                assert(ns.take(i + 1).contains(v) == (taken.contains(v) || v == node@));
                assert(before.contains(v) <==> taken.contains(v) && old_degree[v] == 0);
            }
        }
        i += 1;
    }
    let ghost none: Seq<Seq<char>> = Seq::empty();
    proof {
        assert(ns.take(ns.len() as int) == ns);
        assert(in_degree@.dom() =~= g.dom());
        let done = texts(order@).take(0).to_set();
        assert(done =~= Set::<Seq<char>>::empty());
        assert forall|v: Seq<char>| #[trigger] g.contains_key(v) implies in_degree@[v] == pending(
            g[v],
            done,
        ) - occurrences(none.take(0), v) by {
            lemma_pending_empty(g[v]);
            assert(ns.to_set().contains(v));
            assert(ns.contains(v));
        }
        assert forall|v: Seq<char>| #[trigger]
            texts(order@).contains(v) <==> g.contains_key(v) && in_degree@[v] == 0 by {
            assert(ns.to_set().contains(v) == ns.contains(v));
        }
        assert(after_dependencies(g, texts(order@))) by {
            assert forall|a: int, b: int|
                0 <= a < texts(order@).len() && 0 <= b < g[texts(order@)[a]].len() implies texts(
                order@,
            ).take(a).contains(#[trigger] g[texts(order@)[a]][b]) by {
                let v = texts(order@)[a];
                assert(texts(order@).contains(v));
                assert(ns.contains(v));
            }
        }
        assert(kahn_inv(g, in_degree@, texts(order@), 0, none, 0));
    }
    (in_degree, order)
}

/// Those of `nodes` that are not in `order`.
fn leftover_of(nodes: &Vec<String>, order: &Vec<String>) -> (leftover: Vec<String>)
    requires
        texts(nodes@).no_duplicates(),
    ensures
        texts(leftover@).no_duplicates(),
        forall|v: Seq<char>| #[trigger]
            texts(leftover@).contains(v) <==> texts(nodes@).contains(v) && !texts(order@).contains(
                v,
            ),
{
    let ghost ns = texts(nodes@);
    let mut leftover: Vec<String> = Vec::new();
    let mut i: usize = 0;
    while i < nodes.len()
        invariant
            i <= nodes.len(),
            ns == texts(nodes@),
            ns.no_duplicates(),
            texts(leftover@).no_duplicates(),
            forall|v: Seq<char>| #[trigger]
                texts(leftover@).contains(v) <==> ns.take(i as int).contains(v) && !texts(
                    order@,
                ).contains(v),
        decreases nodes.len() - i,
    {
        let node = &nodes[i];
        let ghost taken = ns.take(i as int);
        let ghost before = texts(leftover@);
        proof {
            assert(ns[i as int] == node@);
            lemma_prefix_grows(ns, i as int);
        }
        if !lists(order, node.as_str()) {
            leftover.push(node.clone());
            proof {
                assert(texts(leftover@) == before.push(node@));
                lemma_push_distinct(before, node@);
            }
        }
        proof {
            assert forall|v: Seq<char>| #[trigger]
                texts(leftover@).contains(v) <==> ns.take(i + 1).contains(v) && !texts(
                    order@,
                ).contains(v) by {
                assert(ns.take(i + 1).contains(v) == (taken.contains(v) || v == node@));
                assert(before.contains(v) <==> taken.contains(v) && !texts(order@).contains(v));
            }
        }
        i += 1;
    }
    assert(ns.take(ns.len() as int) == ns);
    leftover
}

/// Once all placed services have been counted off, the order is a boot order.
proof fn lemma_kahn_done(g: Graph, degree: Map<Seq<char>, usize>, order: Seq<Seq<char>>)
    requires
        kahn_inv(g, degree, order, order.len() as int, Seq::empty(), 0),
    ensures
        is_boot_order(g, order),
{
    assert forall|n: Seq<char>| #[trigger] order.contains(n) <==> grounded(g, n) by {
        if order.contains(n) {
            let p = order.index_of(n);
            assert forall|i: int| 0 <= i < order.len() implies g.contains_key(
                #[trigger] order[i],
            ) by {
                assert(order.contains(order[i]));
            }
            lemma_placed_grounded(g, order, p);
            assert(grounded_within(g, n, p as nat));
        }
        if grounded(g, n) {
            let k = choose|k: nat| grounded_within(g, n, k);
            lemma_grounded_placed(g, degree, order, n, k);
        }
    }
}

/// Orders the services of `graph` so that each comes behind its dependencies; what cannot
/// be ordered that way, because it is on a cycle or depends on one, is left over.
pub fn kahn_sort_with_leftover(graph: &NameMap<Vec<String>>) -> (r: (Vec<String>, Vec<String>))
    ensures
        is_boot_order(graph_of(graph@), texts(r.0@)),
        is_severed(graph_of(graph@), texts(r.1@)),
{
    let ghost g = graph_of(graph@);
    let dependents = build_dependents(graph);
    let ghost rev = graph_of(dependents@);
    let (mut in_degree, mut order) = initial_degrees(graph);
    let ghost none: Seq<Seq<char>> = Seq::empty();
    let mut head: usize = 0;
    proof {
        graph.lemma_finite();
        assert(g.dom() =~= graph@.dom());
    }
    while head < order.len()
        invariant
            head <= order.len(),
            g == graph_of(graph@),
            rev == graph_of(dependents@),
            is_reverse(g, rev),
            none == Seq::<Seq<char>>::empty(),
            kahn_inv(g, in_degree@, texts(order@), head as int, none, 0),
            g.dom().finite(),
        decreases g.dom().len() - head,
    {
        let u = order[head].clone();
        let ghost ord0 = texts(order@);
        let ghost sucs = list_at(rev, u@);
        proof {
            lemma_kahn_enter(g, rev, in_degree@, ord0, head as int);
        }
        match dependents.get(u.as_str()) {
            None => {
                assert(sucs == none);
            },
            Some(list) => {
                assert(texts(list@) == sucs);
                let mut j: usize = 0;
                while j < list.len()
                    invariant
                        j <= list.len(),
                        texts(list@) == sucs,
                        sucs == list_at(rev, u@),
                        is_reverse(g, rev),
                        head < ord0.len() <= texts(order@).len(),
                        u@ == ord0[head as int],
                        texts(order@).take(ord0.len() as int) == ord0,
                        kahn_inv(g, in_degree@, texts(order@), head as int, sucs, j as int),
                    decreases list.len() - j,
                {
                    let v = &list[j];
                    let ghost before = in_degree@;
                    let ghost placed = texts(order@);
                    proof {
                        assert(placed[head as int] == placed.take(ord0.len() as int)[head as int]);
                        lemma_kahn_step(g, rev, before, placed, head as int, j as int);
                        assert(sucs[j as int] == v@);
                    }
                    let d: usize = match in_degree.get(v.as_str()) {
                        Some(d) => *d,
                        None => 1,
                    };
                    in_degree.insert(v.as_str(), d - 1);
                    if d == 1 {
                        order.push(v.clone());
                        assert(texts(order@) == placed.push(v@));
                        assert(texts(order@).take(ord0.len() as int) == ord0);
                    }
                    j += 1;
                }
                assert(sucs.take(j as int) == sucs);
            },
        }
        proof {
            assert(ord0.take(head as int) == texts(order@).take(head as int));
            assert(texts(order@)[head as int] == texts(order@).take(
                ord0.len() as int,
            )[head as int]);
            lemma_kahn_leave(g, rev, in_degree@, texts(order@), head as int);
            lemma_kahn_bound(g, in_degree@, texts(order@), head as int);
        }
        head += 1;
    }
    proof {
        lemma_kahn_done(g, in_degree@, texts(order@));
    }
    let nodes = graph.names();
    let leftover = leftover_of(nodes, &order);
    proof {
        assert forall|n: Seq<char>| #[trigger]
            texts(leftover@).contains(n) <==> g.contains_key(n) && !grounded(g, n) by {
            assert(texts(nodes@).to_set().contains(n) == texts(nodes@).contains(n));
            assert(texts(order@).contains(n) <==> grounded(g, n));
        }
    }
    (order, leftover)
}

proof fn lemma_kahn_enter(
    g: Graph,
    rev: Graph,
    degree: Map<Seq<char>, usize>,
    order: Seq<Seq<char>>,
    head: int,
)
    requires
        head < order.len(),
        kahn_inv(g, degree, order, head, Seq::empty(), 0),
    ensures
        kahn_inv(g, degree, order, head, list_at(rev, order[head]), 0),
{
    let sucs = list_at(rev, order[head]);
    assert(sucs.take(0) == Seq::<Seq<char>>::empty());
    assert(Seq::<Seq<char>>::empty().take(0) == Seq::<Seq<char>>::empty());
}

/// The next service in line is not among those counted off before it.
proof fn lemma_head_is_new(order: Seq<Seq<char>>, head: int)
    requires
        0 <= head < order.len(),
        order.no_duplicates(),
    ensures
        !order.take(head).to_set().contains(order[head]),
        order.take(head + 1).to_set() == order.take(head).to_set().insert(order[head]),
{
    let t = order.take(head);
    if t.contains(order[head]) {
        let k = t.index_of(order[head]);
        assert(order[k] == order[head]);
    }
    assert(order.take(head + 1) == t.push(order[head]));
    assert forall|y: Seq<char>| #[trigger]
        order.take(head + 1).to_set().contains(y) == t.to_set().insert(order[head]).contains(y) by {
        if t.contains(y) {
            assert(order.take(head + 1)[t.index_of(y)] == y);
        }
        assert(order.take(head + 1)[head] == order[head]);
    }
    assert(order.take(head + 1).to_set() =~= t.to_set().insert(order[head]));
}

proof fn lemma_kahn_step(
    g: Graph,
    rev: Graph,
    degree: Map<Seq<char>, usize>,
    order: Seq<Seq<char>>,
    head: int,
    j: int,
)
    requires
        head < order.len(),
        is_reverse(g, rev),
        kahn_inv(g, degree, order, head, list_at(rev, order[head]), j),
        j < list_at(rev, order[head]).len(),
    ensures
        ({
            let sucs = list_at(rev, order[head]);
            let v = sucs[j];
            let next = degree.insert(v, (degree[v] - 1) as usize);
            &&& degree.contains_key(v)
            &&& degree[v] >= 1
            &&& if degree[v] == 1 {
                kahn_inv(g, next, order.push(v), head, sucs, j + 1)
            } else {
                kahn_inv(g, next, order, head, sucs, j + 1)
            }
        }),
{
    let u = order[head];
    let sucs = list_at(rev, u);
    let v = sucs[j];
    let done = order.take(head).to_set();
    lemma_head_is_new(order, head);
    assert(occurrences(list_at(rev, u), v) == occurrences(list_at(g, v), u));
    lemma_occurrences_take(sucs, v, j);
    lemma_occurrences_prefix(sucs, v, j + 1);
    lemma_occurrences_contains(list_at(g, v), u);
    assert(g.contains_key(v));
    lemma_pending_insert(g[v], done, u);
    assert(degree[v] >= 1);
    let next = degree.insert(v, (degree[v] - 1) as usize);
    assert(next.dom() =~= g.dom());
    let order2 = if degree[v] == 1 {
        order.push(v)
    } else {
        order
    };
    assert(order2.take(head) == order.take(head));
    assert forall|w: Seq<char>| #[trigger] g.contains_key(w) implies next[w] == pending(
        g[w],
        order2.take(head).to_set(),
    ) - occurrences(sucs.take(j + 1), w) by {
        lemma_occurrences_take(sucs, w, j);
        assert(degree[w] == pending(g[w], done) - occurrences(sucs.take(j), w));
    }
    if degree[v] == 1 {
        assert(!order.contains(v));
        lemma_push_distinct(order, v);
        assert(pending(g[v], done.insert(u)) == 0);
        lemma_pending_zero(g[v], done.insert(u));
        assert forall|a: int, b: int|
            0 <= a < order2.len() && 0 <= b < g[order2[a]].len() implies order2.take(a).contains(
            #[trigger] g[order2[a]][b],
        ) by {
            if a < order.len() {
                assert(order2[a] == order[a]);
                assert(order2.take(a) == order.take(a));
            } else {
                assert(order2.take(a) == order);
                let dep = g[v][b];
                assert(done.insert(u).contains(dep));
                assert(order.take(head + 1).contains(dep));
                let k = order.take(head + 1).index_of(dep);
                assert(order[k] == dep);
            }
        }
    }
    assert forall|w: Seq<char>| #[trigger]
        order2.contains(w) <==> g.contains_key(w) && next[w] == 0 by {
        assert(order.contains(w) <==> g.contains_key(w) && degree[w] == 0);
    }
}

proof fn lemma_kahn_leave(
    g: Graph,
    rev: Graph,
    degree: Map<Seq<char>, usize>,
    order: Seq<Seq<char>>,
    head: int,
)
    requires
        head < order.len(),
        is_reverse(g, rev),
        kahn_inv(
            g,
            degree,
            order,
            head,
            list_at(rev, order[head]),
            list_at(rev, order[head]).len() as int,
        ),
    ensures
        kahn_inv(g, degree, order, head + 1, Seq::empty(), 0),
{
    let u = order[head];
    let sucs = list_at(rev, u);
    let done = order.take(head).to_set();
    lemma_head_is_new(order, head);
    assert(sucs.take(sucs.len() as int) == sucs);
    let none = Seq::<Seq<char>>::empty();
    assert(none.take(0) == none);
    assert forall|w: Seq<char>| #[trigger] g.contains_key(w) implies degree[w] == pending(
        g[w],
        order.take(head + 1).to_set(),
    ) - occurrences(none.take(0), w) by {
        lemma_pending_insert(g[w], done, u);
        assert(occurrences(list_at(rev, u), w) == occurrences(list_at(g, w), u));
    }
}

proof fn lemma_kahn_bound(
    g: Graph,
    degree: Map<Seq<char>, usize>,
    order: Seq<Seq<char>>,
    head: int,
)
    requires
        kahn_inv(g, degree, order, head + 1, Seq::empty(), 0),
        g.dom().finite(),
    ensures
        order.len() <= g.dom().len(),
{
    order.unique_seq_to_set();
    assert forall|x: Seq<char>| order.to_set().contains(x) implies g.dom().contains(x) by {
        assert(order.contains(x));
    }
    vstd::set_lib::lemma_len_subset(order.to_set(), g.dom());
}

proof fn lemma_push_distinct(s: Seq<Seq<char>>, x: Seq<char>)
    requires
        s.no_duplicates(),
        !s.contains(x),
    ensures
        s.push(x).no_duplicates(),
        forall|y: Seq<char>| #[trigger] s.push(x).contains(y) <==> s.contains(y) || y == x,
{
    let t = s.push(x);
    assert forall|y: Seq<char>| #[trigger] t.contains(y) <==> s.contains(y) || y == x by {
        if s.contains(y) {
            assert(t[s.index_of(y)] == y);
        }
        assert(t[s.len() as int] == x);
    }
}

// ---------------------------------------------------------------------------
// Depth
// ---------------------------------------------------------------------------

/// Whether `d` is the depth of the deepest service that can be started, or zero if there
/// is none.
pub open spec fn deepest(g: Graph, d: nat) -> bool {
    depth_at_most(g, d) && (d > 0 ==> !depth_at_most(g, (d - 1) as nat))
}

/// Whether every remembered depth is right.
spec fn memo_right(g: Graph, memo: Map<Seq<char>, usize>) -> bool {
    forall|n: Seq<char>| #[trigger] memo.contains_key(n) ==> has_depth(g, n, memo[n] as nat)
}

/// A service has one depth.
pub proof fn lemma_depth_least(g: Graph, n: Seq<char>, d: nat, k: nat)
    requires
        has_depth(g, n, d),
        grounded_within(g, n, k),
    ensures
        d <= k,
{
    if k < d {
        lemma_grounded_monotone(g, n, k, (d - 1) as nat);
    }
}

/// The depth of `node`: zero without dependencies, else one more than the deepest of them.
fn depth_node(
    graph: &NameMap<Vec<String>>,
    memo: &mut NameMap<usize>,
    node: &str,
    Ghost(k): Ghost<nat>,
) -> (d: usize)
    requires
        grounded_within(graph_of(graph@), node@, k),
        k < usize::MAX,
        memo_right(graph_of(graph@), old(memo)@),
    ensures
        has_depth(graph_of(graph@), node@, d as nat),
        memo_right(graph_of(graph@), final(memo)@),
    decreases k,
{
    let ghost g = graph_of(graph@);
    match memo.get(node) {
        Some(d) => {
            return *d;
        },
        None => {},
    }
    let mut depth: usize = 0;
    match graph.get(node) {
        None => {},
        Some(deps) => {
            let ghost ds = texts(deps@);
            assert(g[node@] == ds);
            if deps.len() > 0 {
                let mut m: usize = 0;
                let mut j: usize = 0;
                while j < deps.len()
                    invariant
                        j <= deps.len(),
                        deps.len() > 0,
                        g == graph_of(graph@),
                        ds == texts(deps@),
                        g[node@] == ds,
                        grounded_within(g, node@, k),
                        k < usize::MAX,
                        memo_right(g, memo@),
                        m <= k - 1,
                        j == 0 ==> m == 0,
                        forall|i: int| 0 <= i < j ==> grounded_within(g, #[trigger] ds[i], m as nat),
                        j > 0 ==> exists|i: int| 0 <= i < j && has_depth(g, #[trigger] ds[i], m as nat),
                    decreases deps.len() - j,
                {
                    let ghost before = m as nat;
                    assert(ds[j as int] == deps[j as int]@);
                    assert(grounded_within(g, g[node@][j as int], (k - 1) as nat));
                    let d = depth_node(graph, memo, deps[j].as_str(), Ghost((k - 1) as nat));
                    proof {
                        lemma_depth_least(g, ds[j as int], d as nat, (k - 1) as nat);
                    }
                    if d > m {
                        m = d;
                    }
                    proof {
                        assert forall|i: int| 0 <= i < j + 1 implies grounded_within(
                            g,
                            #[trigger] ds[i],
                            m as nat,
                        ) by {
                            if i < j {
                                lemma_grounded_monotone(g, ds[i], before, m as nat);
                            } else {
                                lemma_grounded_monotone(g, ds[i], d as nat, m as nat);
                            }
                        }
                        if d == m {
                            assert(has_depth(g, ds[j as int], m as nat));
                        }
                    }
                    j += 1;
                }
                depth = m + 1;
                proof {
                    assert forall|i: int| 0 <= i < g[node@].len() implies grounded_within(
                        g,
                        #[trigger] g[node@][i],
                        (depth as nat - 1) as nat,
                    ) by {
                        assert(ds[i] == g[node@][i]);
                    }
                    assert(grounded_within(g, node@, depth as nat));
                    let w = choose|i: int| 0 <= i < j && has_depth(g, #[trigger] ds[i], m as nat);
                    if grounded_within(g, node@, m as nat) {
                        assert(grounded_within(g, g[node@][w], (m - 1) as nat));
                        assert(m > 0);
                        assert(false);
                    }
                }
            }
        },
    }
    memo.insert(node, depth);
    depth
}

/// The depth of the deepest service in `order`, which lists those that can be started.
fn max_dependency_depth(graph: &NameMap<Vec<String>>, order: &Vec<String>) -> (d: usize)
    requires
        is_boot_order(graph_of(graph@), texts(order@)),
    ensures
        deepest(graph_of(graph@), d as nat),
{
    let ghost g = graph_of(graph@);
    let ghost os = texts(order@);
    let mut memo: NameMap<usize> = NameMap::new();
    let mut deep: usize = 0;
    let mut i: usize = 0;
    while i < order.len()
        invariant
            i <= order.len(),
            g == graph_of(graph@),
            os == texts(order@),
            is_boot_order(g, os),
            memo_right(g, memo@),
            forall|p: int| 0 <= p < i ==> grounded_within(g, #[trigger] os[p], deep as nat),
            deep > 0 ==> exists|p: int| 0 <= p < i && has_depth(g, #[trigger] os[p], deep as nat),
        decreases order.len() - i,
    {
        let ghost before = deep as nat;
        proof {
            assert(os[i as int] == order[i as int]@);
            assert forall|p: int| 0 <= p < os.len() implies g.contains_key(#[trigger] os[p]) by {
                assert(os.contains(os[p]));
                let k = choose|k: nat| grounded_within(g, os[p], k);
                assert(grounded_within(g, os[p], k));
            }
            lemma_placed_grounded(g, os, i as int);
        }
        let d = depth_node(graph, &mut memo, order[i].as_str(), Ghost(i as nat));
        if d > deep {
            deep = d;
        }
        proof {
            assert forall|p: int| 0 <= p < i + 1 implies grounded_within(
                g,
                #[trigger] os[p],
                deep as nat,
            ) by {
                if p < i {
                    lemma_grounded_monotone(g, os[p], before, deep as nat);
                } else {
                    lemma_grounded_monotone(g, os[p], d as nat, deep as nat);
                }
            }
            if d == deep {
                assert(has_depth(g, os[i as int], deep as nat));
            }
        }
        i += 1;
    }
    proof {
        assert forall|n: Seq<char>| #[trigger] grounded(g, n) implies grounded_within(
            g,
            n,
            deep as nat,
        ) by {
            assert(os.contains(n));
            assert(os[os.index_of(n)] == n);
        }
        if deep > 0 {
            let p = choose|p: int| 0 <= p < i && has_depth(g, #[trigger] os[p], deep as nat);
            assert(grounded(g, os[p]));
        }
    }
    deep
}

// ---------------------------------------------------------------------------
// Graphs out of schemas
// ---------------------------------------------------------------------------

/// The graph that the enabled ones of `schemas` declare: each name with what the service of
/// that name depends on. Schemas that were loaded together have different names.
pub open spec fn declared(schemas: Seq<ServiceSchema>) -> Graph
    decreases schemas.len(),
{
    if schemas.len() == 0 {
        Map::empty()
    } else {
        let s = schemas.last();
        let before = declared(schemas.drop_last());
        if s.enabled {
            before.insert(s.service.name@, texts(s.depends_on@))
        } else {
            before
        }
    }
}

/// The first of `deps` that is not in `known`.
pub open spec fn first_unknown(deps: Seq<Seq<char>>, known: Set<Seq<char>>) -> Option<Seq<char>>
    decreases deps.len(),
{
    if deps.len() == 0 {
        None
    } else {
        match first_unknown(deps.drop_last(), known) {
            Some(d) => Some(d),
            None => if known.contains(deps.last()) {
                None
            } else {
                Some(deps.last())
            },
        }
    }
}

/// The first enabled service, with its first dependency that is not in `known`.
pub open spec fn first_missing(schemas: Seq<ServiceSchema>, known: Set<Seq<char>>) -> Option<
    (Seq<char>, Seq<char>),
>
    decreases schemas.len(),
{
    if schemas.len() == 0 {
        None
    } else {
        let s = schemas.last();
        match first_missing(schemas.drop_last(), known) {
            Some(p) => Some(p),
            None => if s.enabled {
                match first_unknown(texts(s.depends_on@), known) {
                    Some(d) => Some((s.service.name@, d)),
                    None => None,
                }
            } else {
                None
            },
        }
    }
}

/// The graph that the enabled ones of `schemas` declare.
pub fn build_dependency_graph(schemas: &[ServiceSchema]) -> (graph: NameMap<Vec<String>>)
    ensures
        graph_of(graph@) == declared(schemas@),
{
    let mut graph: NameMap<Vec<String>> = NameMap::new();
    let mut i: usize = 0;
    assert(schemas@.take(0) == Seq::<ServiceSchema>::empty());
    assert(graph_of(graph@) =~= declared(schemas@.take(0)));
    while i < schemas.len()
        invariant
            i <= schemas.len(),
            graph_of(graph@) == declared(schemas@.take(i as int)),
        decreases schemas.len() - i,
    {
        let s = &schemas[i];
        let ghost before = graph_of(graph@);
        assert(schemas@.take(i + 1).drop_last() == schemas@.take(i as int));
        assert(schemas@.take(i + 1).last() == s);
        if s.enabled {
            let deps = copy_names(&s.depends_on);
            graph.insert(s.service.name.as_str(), deps);
            assert(graph_of(graph@) =~= before.insert(s.service.name@, texts(s.depends_on@)));
        }
        i += 1;
    }
    assert(schemas@.take(schemas@.len() as int) == schemas@);
    graph
}

/// Looks for a dependency without a node in `graph`.
fn find_unknown<'a>(deps: &'a Vec<String>, graph: &NameMap<Vec<String>>) -> (r: Option<&'a String>)
    ensures
        match r {
            Some(d) => first_unknown(texts(deps@), graph@.dom()) == Some(d@),
            None => first_unknown(texts(deps@), graph@.dom()) is None,
        },
{
    let ghost ds = texts(deps@);
    let mut i: usize = 0;
    assert(ds.take(0) == Seq::<Seq<char>>::empty());
    while i < deps.len()
        invariant
            i <= deps.len(),
            ds == texts(deps@),
            first_unknown(ds.take(i as int), graph@.dom()) is None,
        decreases deps.len() - i,
    {
        assert(ds.take(i + 1).drop_last() == ds.take(i as int));
        assert(ds.take(i + 1).last() == deps[i as int]@);
        if !graph.contains_key(deps[i].as_str()) {
            proof {
                lemma_first_unknown_prefix(ds, graph@.dom(), i + 1);
            }
            return Some(&deps[i]);
        }
        i += 1;
    }
    assert(ds.take(ds.len() as int) == ds);
    None
}

proof fn lemma_first_unknown_prefix(deps: Seq<Seq<char>>, known: Set<Seq<char>>, i: int)
    requires
        0 <= i <= deps.len(),
        first_unknown(deps.take(i), known) is Some,
    ensures
        first_unknown(deps, known) == first_unknown(deps.take(i), known),
    decreases deps.len() - i,
{
    if i == deps.len() {
        assert(deps.take(i) == deps);
    } else {
        assert(deps.take(i + 1).drop_last() == deps.take(i));
        lemma_first_unknown_prefix(deps, known, i + 1);
    }
}

proof fn lemma_first_missing_prefix(schemas: Seq<ServiceSchema>, known: Set<Seq<char>>, i: int)
    requires
        0 <= i <= schemas.len(),
        first_missing(schemas.take(i), known) is Some,
    ensures
        first_missing(schemas, known) == first_missing(schemas.take(i), known),
    decreases schemas.len() - i,
{
    if i == schemas.len() {
        assert(schemas.take(i) == schemas);
    } else {
        assert(schemas.take(i + 1).drop_last() == schemas.take(i));
        lemma_first_missing_prefix(schemas, known, i + 1);
    }
}

// ---------------------------------------------------------------------------
// Forging the boot order
// ---------------------------------------------------------------------------

/// A boot order, and the services that were severed.
#[derive(Debug, Clone)]
pub struct ForgedDag {
    pub boot_order: Vec<String>,
    pub dropped_cyclic: Vec<String>,
}

/// The complaint about a dependency that no enabled service provides.
pub open spec fn missing_text(name: Seq<char>, dep: Seq<char>) -> Seq<char> {
    "service "@ + crate::text::debug_text(name) + " depends_on "@ + crate::text::debug_text(dep)
        + " which is missing or not enabled"@
}

/// The complaint about a chain of dependencies that is too long.
pub open spec fn too_deep_text(d: nat) -> Seq<char> {
    "DAG max depth "@ + crate::text::decimal(d) + " exceeds limit "@ + crate::text::decimal(
        MAX_DAG_DEPTH as nat,
    ) + " (16 §2)"@
}

/// What [`forge_boot_order`] makes of `schemas`.
pub open spec fn forged(schemas: Seq<ServiceSchema>, r: Result<ForgedDag, SysXError>) -> bool {
    let g = declared(schemas);
    match first_missing(schemas, g.dom()) {
        Some(p) => r matches Err(SysXError::Dag(m)) && m@ == missing_text(p.0, p.1),
        None => if depth_at_most(g, MAX_DAG_DEPTH as nat) {
            r matches Ok(f) && is_boot_order(g, texts(f.boot_order@)) && is_severed(
                g,
                texts(f.dropped_cyclic@),
            )
        } else {
            r matches Err(SysXError::Dag(m)) && exists|d: nat|
                deepest(g, d) && m@ == #[trigger] too_deep_text(d)
        },
    }
}

/// Puts the enabled services in an order in which each comes behind its dependencies.
/// Services on a cycle, and those that depend on one, are dropped. A dependency that no
/// enabled service provides, or a chain that is too long, is an error.
///
/// One pass is enough: what has been placed depends on nothing that is left over.
pub fn forge_boot_order(schemas: &[ServiceSchema]) -> (r: Result<ForgedDag, SysXError>)
    ensures
        forged(schemas@, r),
{
    let graph = build_dependency_graph(schemas);
    let ghost g = graph_of(graph@);
    assert(g.dom() =~= graph@.dom());
    let mut i: usize = 0;
    assert(schemas@.take(0) == Seq::<ServiceSchema>::empty());
    while i < schemas.len()
        invariant
            i <= schemas.len(),
            g == graph_of(graph@),
            g == declared(schemas@),
            g.dom() == graph@.dom(),
            first_missing(schemas@.take(i as int), g.dom()) is None,
        decreases schemas.len() - i,
    {
        let s = &schemas[i];
        assert(schemas@.take(i + 1).drop_last() == schemas@.take(i as int));
        assert(schemas@.take(i + 1).last() == s);
        if s.enabled {
            match find_unknown(&s.depends_on, &graph) {
                Some(dep) => {
                    proof {
                        lemma_first_missing_prefix(schemas@, g.dom(), i + 1);
                    }
                    let mut m = "service ".to_owned();
                    let q = debug_string(s.service.name.as_str());
                    push_text(&mut m, q.as_str());
                    push_text(&mut m, " depends_on ");
                    let q = debug_string(dep.as_str());
                    push_text(&mut m, q.as_str());
                    push_text(&mut m, " which is missing or not enabled");
                    return Err(SysXError::Dag(m));
                },
                None => {},
            }
        }
        i += 1;
    }
    assert(schemas@.take(schemas@.len() as int) == schemas@);
    let (order, leftover) = kahn_sort_with_leftover(&graph);
    let depth = max_dependency_depth(&graph, &order);
    if depth > MAX_DAG_DEPTH {
        let mut m = "DAG max depth ".to_owned();
        let n = decimal_string(depth as u64);
        push_text(&mut m, n.as_str());
        push_text(&mut m, " exceeds limit ");
        let n = decimal_string(MAX_DAG_DEPTH as u64);
        push_text(&mut m, n.as_str());
        push_text(&mut m, " (16 §2)");
        proof {
            if depth_at_most(g, MAX_DAG_DEPTH as nat) {
                assert forall|n: Seq<char>| #[trigger] grounded(g, n) implies grounded_within(
                    g,
                    n,
                    (depth - 1) as nat,
                ) by {
                    lemma_grounded_monotone(g, n, MAX_DAG_DEPTH as nat, (depth - 1) as nat);
                }
            }
            assert(m@ == too_deep_text(depth as nat));
        }
        return Err(SysXError::Dag(m));
    }
    proof {
        assert forall|n: Seq<char>| #[trigger] grounded(g, n) implies grounded_within(
            g,
            n,
            MAX_DAG_DEPTH as nat,
        ) by {
            lemma_grounded_monotone(g, n, depth as nat, MAX_DAG_DEPTH as nat);
        }
    }
    Ok(ForgedDag { boot_order: order, dropped_cyclic: leftover })
}

/// What [`validate`] says when services had to be severed.
pub open spec fn cyclic_text() -> Seq<char> {
    "validate() called but graph contained cycles — use forge_boot_order()"@
}

/// Whether every service of `g` can be started.
pub open spec fn all_startable(g: Graph) -> bool {
    forall|n: Seq<char>| #[trigger] g.contains_key(n) ==> grounded(g, n)
}

/// Checks that every enabled service can be started: no dependency is missing, no chain is
/// too long, and there is no cycle.
pub fn validate(schemas: &[ServiceSchema]) -> (r: Result<(), SysXError>)
    ensures
        match r {
            Ok(()) => first_missing(schemas@, declared(schemas@).dom()) is None && depth_at_most(
                declared(schemas@),
                MAX_DAG_DEPTH as nat,
            ) && forall|n: Seq<char>| #[trigger]
                declared(schemas@).contains_key(n) ==> grounded(declared(schemas@), n),
            Err(e) => forged(schemas@, Err(e)) || {
                &&& first_missing(schemas@, declared(schemas@).dom()) is None
                &&& depth_at_most(declared(schemas@), MAX_DAG_DEPTH as nat)
                &&& exists|n: Seq<char>| #[trigger]
                    declared(schemas@).contains_key(n) && !grounded(declared(schemas@), n)
                &&& e matches SysXError::Dag(m) && m@ == cyclic_text()
            },
        },
        match r {
            Ok(()) => all_startable(declared(schemas@)),
            Err(e) => forged(schemas@, Err(e)) || !all_startable(declared(schemas@)),
        },
{
    match forge_boot_order(schemas) {
        Err(e) => Err(e),
        Ok(forged_dag) => {
            let ghost g = declared(schemas@);
            let ghost dropped = texts(forged_dag.dropped_cyclic@);
            assert(is_severed(g, dropped));
            if forged_dag.dropped_cyclic.len() > 0 {
                assert(dropped.contains(dropped[0]));
                return Err(
                    SysXError::Dag(
                        "validate() called but graph contained cycles — use forge_boot_order()".to_owned(),
                    ),
                );
            }
            assert forall|n: Seq<char>| #[trigger] g.contains_key(n) implies grounded(g, n) by {
                assert(!dropped.contains(n));
            }
            Ok(())
        },
    }
}

// ---------------------------------------------------------------------------
// The graph at run time
// ---------------------------------------------------------------------------

/// Those of `deps` that are in `allowed`, in their order.
pub open spec fn kept(deps: Seq<Seq<char>>, allowed: Set<Seq<char>>) -> Seq<Seq<char>>
    decreases deps.len(),
{
    if deps.len() == 0 {
        Seq::empty()
    } else {
        let before = kept(deps.drop_last(), allowed);
        if allowed.contains(deps.last()) {
            before.push(deps.last())
        } else {
            before
        }
    }
}

/// The graph of the services of `order` that have a schema, restricted to `allowed`.
pub open spec fn filtered(
    order: Seq<Seq<char>>,
    schemas: Map<Seq<char>, ServiceSchema>,
    allowed: Set<Seq<char>>,
) -> Graph
    decreases order.len(),
{
    if order.len() == 0 {
        Map::empty()
    } else {
        let before = filtered(order.drop_last(), schemas, allowed);
        let n = order.last();
        if schemas.contains_key(n) && allowed.contains(schemas[n].service.name@) {
            before.insert(schemas[n].service.name@, kept(texts(schemas[n].depends_on@), allowed))
        } else {
            before
        }
    }
}

fn keep_allowed(deps: &Vec<String>, allowed: &NameSet) -> (r: Vec<String>)
    ensures
        texts(r@) == kept(texts(deps@), allowed@),
{
    let ghost ds = texts(deps@);
    let mut r: Vec<String> = Vec::new();
    let mut i: usize = 0;
    assert(ds.take(0) == Seq::<Seq<char>>::empty());
    assert(texts(r@) =~= kept(ds.take(0), allowed@));
    while i < deps.len()
        invariant
            i <= deps.len(),
            ds == texts(deps@),
            texts(r@) == kept(ds.take(i as int), allowed@),
        decreases deps.len() - i,
    {
        assert(ds.take(i + 1).drop_last() == ds.take(i as int));
        assert(ds.take(i + 1).last() == deps[i as int]@);
        let ghost before = r@;
        if allowed.contains(deps[i].as_str()) {
            r.push(deps[i].as_str().to_owned());
            assert(texts(r@) =~= texts(before).push(deps[i as int]@));
        }
        i += 1;
    }
    assert(ds.take(ds.len() as int) == ds);
    r
}

/// The graph of the services of `order` that have a schema. Services and dependencies that
/// are not in `allowed` are left out.
fn build_dependency_graph_filtered(
    order: &Vec<String>,
    schemas: &NameMap<ServiceSchema>,
    allowed: &NameSet,
) -> (graph: NameMap<Vec<String>>)
    ensures
        graph_of(graph@) == filtered(texts(order@), schemas@, allowed@),
{
    let ghost os = texts(order@);
    let mut graph: NameMap<Vec<String>> = NameMap::new();
    let mut i: usize = 0;
    assert(os.take(0) == Seq::<Seq<char>>::empty());
    assert(graph_of(graph@) =~= filtered(os.take(0), schemas@, allowed@));
    while i < order.len()
        invariant
            i <= order.len(),
            os == texts(order@),
            graph_of(graph@) == filtered(os.take(i as int), schemas@, allowed@),
        decreases order.len() - i,
    {
        assert(os.take(i + 1).drop_last() == os.take(i as int));
        assert(os.take(i + 1).last() == order[i as int]@);
        let ghost before = graph_of(graph@);
        match schemas.get(order[i].as_str()) {
            None => {},
            Some(s) => {
                if allowed.contains(s.service.name.as_str()) {
                    let deps = keep_allowed(&s.depends_on, allowed);
                    let ghost ds = texts(deps@);
                    graph.insert(s.service.name.as_str(), deps);
                    assert(graph_of(graph@) =~= before.insert(s.service.name@, ds));
                }
            },
        }
        i += 1;
    }
    assert(os.take(os.len() as int) == os);
    graph
}

/// The boot order with the edges in both directions.
#[derive(Debug, Clone)]
pub struct DagRuntime {
    pub boot_order: Vec<String>,
    /// For each service what it depends on, as far as it is in the boot order.
    pub graph: NameMap<Vec<String>>,
    /// For each service those that depend on it.
    pub dependents: NameMap<Vec<String>>,
}

impl DagRuntime {
    /// Whether the two edge maps agree.
    pub open spec fn wf(&self) -> bool {
        is_reverse(graph_of(self.graph@), graph_of(self.dependents@))
    }

    /// The services that `name` depends on.
    pub open spec fn dependencies_of(&self, name: Seq<char>) -> Seq<Seq<char>> {
        list_at(graph_of(self.graph@), name)
    }

    /// The services that depend on `name`.
    pub open spec fn dependents_of(&self, name: Seq<char>) -> Seq<Seq<char>> {
        list_at(graph_of(self.dependents@), name)
    }

    /// Keeps the boot order, and looks up the edges in `schemas`.
    pub fn from_forged(forged: &ForgedDag, schemas: &NameMap<ServiceSchema>) -> (r: DagRuntime)
        ensures
            r.wf(),
            (forall|n: Seq<char>| #[trigger]
                schemas@.contains_key(n) ==> schemas@[n].service.name@ == n) ==> edges_declared(
                graph_of(r.graph@),
                schemas@,
            ),
            texts(r.boot_order@) == texts(forged.boot_order@),
            graph_of(r.graph@) == filtered(
                texts(forged.boot_order@),
                schemas@,
                texts(forged.boot_order@).to_set(),
            ),
    {
        let ghost os = texts(forged.boot_order@);
        let mut names = NameSet::new();
        let mut i: usize = 0;
        assert(os.take(0).to_set() =~= Set::<Seq<char>>::empty());
        while i < forged.boot_order.len()
            invariant
                i <= forged.boot_order.len(),
                os == texts(forged.boot_order@),
                names@ == os.take(i as int).to_set(),
            decreases forged.boot_order.len() - i,
        {
            names.insert(forged.boot_order[i].as_str());
            proof {
                let t = os.take(i + 1);
                assert(t.last() == forged.boot_order[i as int]@);
                assert(t == os.take(i as int).push(t.last()));
                lemma_push_to_set(os.take(i as int), t.last());
            }
            i += 1;
        }
        assert(os.take(os.len() as int) == os);
        let graph = build_dependency_graph_filtered(&forged.boot_order, schemas, &names);
        let dependents = build_dependents(&graph);
        proof {
            if forall|n: Seq<char>| #[trigger]
                schemas@.contains_key(n) ==> schemas@[n].service.name@ == n {
                lemma_filtered_declared(os, schemas@, os.to_set());
            }
        }
        DagRuntime { boot_order: copy_names(&forged.boot_order), graph, dependents }
    }
}

proof fn lemma_push_to_set(s: Seq<Seq<char>>, x: Seq<char>)
    ensures
        s.push(x).to_set() == s.to_set().insert(x),
{
    assert forall|y: Seq<char>| s.push(x).to_set().contains(y) <==> s.to_set().insert(x).contains(
        y,
    ) by {
        if s.contains(y) {
            let i = s.index_of(y);
            assert(s.push(x)[i] == y);
        }
        if y == x {
            assert(s.push(x)[s.len() as int] == x);
        }
    }
    assert(s.push(x).to_set() =~= s.to_set().insert(x));
}

// ---------------------------------------------------------------------------
// Laws
// ---------------------------------------------------------------------------

/// Whether every edge of `g` is a dependency that the service's own schema declares.
pub open spec fn edges_declared(g: Graph, schemas: Map<Seq<char>, ServiceSchema>) -> bool {
    forall|n: Seq<char>, d: Seq<char>|
        #![trigger list_at(g, n).contains(d)]
        list_at(g, n).contains(d) ==> schemas.contains_key(n) && texts(
            schemas[n].depends_on@,
        ).contains(d)
}

/// Law: where the schemas are filed under their own names, the graph at run time has no edge
/// that the schema of the service does not declare.
pub proof fn lemma_filtered_declared(
    order: Seq<Seq<char>>,
    schemas: Map<Seq<char>, ServiceSchema>,
    allowed: Set<Seq<char>>,
)
    requires
        forall|n: Seq<char>| #[trigger]
            schemas.contains_key(n) ==> schemas[n].service.name@ == n,
    ensures
        edges_declared(filtered(order, schemas, allowed), schemas),
    decreases order.len(),
{
    let g = filtered(order, schemas, allowed);
    if order.len() > 0 {
        let before = filtered(order.drop_last(), schemas, allowed);
        lemma_filtered_declared(order.drop_last(), schemas, allowed);
        assert forall|n: Seq<char>, d: Seq<char>|
            #![trigger list_at(g, n).contains(d)]
            list_at(g, n).contains(d) implies schemas.contains_key(n) && texts(
            schemas[n].depends_on@,
        ).contains(d) by {
            if n == order.last() && schemas.contains_key(n) && allowed.contains(n) {
                lemma_kept_of(texts(schemas[n].depends_on@), allowed, d);
            } else {
                assert(list_at(before, n).contains(d));
            }
        }
    }
}

proof fn lemma_kept_of(deps: Seq<Seq<char>>, allowed: Set<Seq<char>>, d: Seq<char>)
    requires
        kept(deps, allowed).contains(d),
    ensures
        deps.contains(d),
    decreases deps.len(),
{
    let before = kept(deps.drop_last(), allowed);
    let i = kept(deps, allowed).index_of(d);
    if i < before.len() {
        assert(before[i] == d);
        lemma_kept_of(deps.drop_last(), allowed, d);
        let k = deps.drop_last().index_of(d);
        assert(deps[k] == d);
    } else {
        assert(deps[deps.len() - 1] == d);
    }
}

/// Law: where `rev` reverses `g`, a service lists another as a dependency exactly if the
/// other lists it as a dependent.
pub proof fn lemma_reverse_edges(g: Graph, rev: Graph, n: Seq<char>, d: Seq<char>)
    requires
        is_reverse(g, rev),
    ensures
        list_at(g, n).contains(d) <==> list_at(rev, d).contains(n),
{
    lemma_occurrences_contains(list_at(g, n), d);
    lemma_occurrences_contains(list_at(rev, d), n);
    assert(occurrences(list_at(rev, d), n) == occurrences(list_at(g, n), d));
}

/// Law: a boot order is closed under dependencies. Whatever a service of it depends on is in
/// it too, so that severing never takes a dependency away from a service that boots.
pub proof fn lemma_boot_order_closed(g: Graph, order: Seq<Seq<char>>, n: Seq<char>, d: Seq<char>)
    requires
        is_boot_order(g, order),
        order.contains(n),
        g[n].contains(d),
    ensures
        order.contains(d),
{
    let i = order.index_of(n);
    let j = g[n].index_of(d);
    assert(g[order[i]][j] == d);
    let p = order.take(i).index_of(d);
    assert(order.take(i).contains(d));
    assert(order[p] == d);
}

/// Law: every service of the graph is either in the boot order or severed, and none is both.
pub proof fn lemma_boots_or_severed(
    g: Graph,
    order: Seq<Seq<char>>,
    dropped: Seq<Seq<char>>,
    n: Seq<char>,
)
    requires
        is_boot_order(g, order),
        is_severed(g, dropped),
    ensures
        g.contains_key(n) <==> (order.contains(n) || dropped.contains(n)),
        !(order.contains(n) && dropped.contains(n)),
{
    if order.contains(n) {
        let k = choose|k: nat| grounded_within(g, n, k);
        assert(grounded_within(g, n, k));
    }
}

/// Law: a service on a cycle of dependencies never boots. `cycle` lists services each of
/// which depends on the next, and the last on the first.
pub proof fn lemma_cycle_severed(g: Graph, cycle: Seq<Seq<char>>, i: int)
    requires
        cycle.len() > 0,
        forall|p: int|
            0 <= p < cycle.len() ==> g.contains_key(#[trigger] cycle[p]) && g[cycle[p]].contains(
                cycle[if p + 1 < cycle.len() {
                    p + 1
                } else {
                    0
                }],
            ),
        0 <= i < cycle.len(),
    ensures
        !grounded(g, cycle[i]),
{
    if grounded(g, cycle[i]) {
        let k = choose|k: nat| grounded_within(g, cycle[i], k);
        lemma_cycle_not_within(g, cycle, i, k);
    }
}

proof fn lemma_cycle_not_within(g: Graph, cycle: Seq<Seq<char>>, i: int, k: nat)
    requires
        cycle.len() > 0,
        forall|p: int|
            0 <= p < cycle.len() ==> g.contains_key(#[trigger] cycle[p]) && g[cycle[p]].contains(
                cycle[if p + 1 < cycle.len() {
                    p + 1
                } else {
                    0
                }],
            ),
        0 <= i < cycle.len(),
    ensures
        !grounded_within(g, cycle[i], k),
    decreases k,
{
    let next = if i + 1 < cycle.len() {
        i + 1
    } else {
        0
    };
    assert(g[cycle[i]].contains(cycle[next]));
    let j = g[cycle[i]].index_of(cycle[next]);
    assert(g[cycle[i]][j] == cycle[next]);
    if k > 0 {
        lemma_cycle_not_within(g, cycle, next, (k - 1) as nat);
    }
}

/// Law: where the schemas are filed under their names, the run-time graph gives each service
/// of the boot order exactly the dependencies it declares.
pub proof fn lemma_filtered_complete(
    g: Graph,
    order: Seq<Seq<char>>,
    schemas: Map<Seq<char>, ServiceSchema>,
)
    requires
        is_boot_order(g, order),
        forall|n: Seq<char>| #[trigger]
            order.contains(n) ==> schemas.contains_key(n) && schemas[n].service.name@ == n && texts(
                schemas[n].depends_on@,
            ) == g[n],
    ensures
        filtered(order, schemas, order.to_set()).dom() == order.to_set(),
        forall|n: Seq<char>| #[trigger]
            order.contains(n) ==> filtered(order, schemas, order.to_set())[n] == g[n],
{
    lemma_filtered_prefix(g, order, schemas, order.len() as int);
    assert(order.take(order.len() as int) == order);
}

proof fn lemma_filtered_prefix(
    g: Graph,
    order: Seq<Seq<char>>,
    schemas: Map<Seq<char>, ServiceSchema>,
    i: int,
)
    requires
        0 <= i <= order.len(),
        is_boot_order(g, order),
        forall|n: Seq<char>| #[trigger]
            order.contains(n) ==> schemas.contains_key(n) && schemas[n].service.name@ == n && texts(
                schemas[n].depends_on@,
            ) == g[n],
    ensures
        filtered(order.take(i), schemas, order.to_set()).dom() == order.take(i).to_set(),
        forall|n: Seq<char>| #[trigger]
            order.take(i).contains(n) ==> filtered(order.take(i), schemas, order.to_set())[n]
                == g[n],
    decreases i,
{
    let all = order.to_set();
    let now = order.take(i);
    if i == 0 {
        assert(filtered(now, schemas, all).dom() =~= now.to_set());
    } else {
        lemma_filtered_prefix(g, order, schemas, i - 1);
        let before = order.take(i - 1);
        let n = order[i - 1];
        assert(now.drop_last() == before);
        assert(now == before.push(n));
        lemma_push_to_set(before, n);
        assert(order.contains(n));
        assert forall|j: int| 0 <= j < g[n].len() implies all.contains(#[trigger] g[n][j]) by {
            lemma_boot_order_closed(g, order, n, g[n][j]);
        }
        lemma_kept_all(g[n], all);
        assert(filtered(now, schemas, all) == filtered(before, schemas, all).insert(n, g[n]));
        assert(filtered(now, schemas, all).dom() =~= now.to_set());
        assert forall|m: Seq<char>| #[trigger] now.contains(m) implies filtered(now, schemas, all)[m]
            == g[m] by {
            if m != n {
                assert(now.to_set().contains(m));
                assert(before.to_set().contains(m));
                assert(before.contains(m));
            }
        }
    }
}

proof fn lemma_kept_all(deps: Seq<Seq<char>>, allowed: Set<Seq<char>>)
    requires
        forall|j: int| 0 <= j < deps.len() ==> allowed.contains(#[trigger] deps[j]),
    ensures
        kept(deps, allowed) == deps,
    decreases deps.len(),
{
    if deps.len() > 0 {
        assert forall|j: int| 0 <= j < deps.drop_last().len() implies allowed.contains(
            #[trigger] deps.drop_last()[j],
        ) by {
            assert(deps.drop_last()[j] == deps[j]);
        }
        lemma_kept_all(deps.drop_last(), allowed);
        assert(deps.drop_last().push(deps.last()) == deps);
    }
}

/// Law: a service that is not enabled never boots. Whatever is in the graph is declared by an
/// enabled schema, with the dependencies it declares.
pub proof fn lemma_only_enabled_boot(schemas: Seq<ServiceSchema>, n: Seq<char>)
    requires
        declared(schemas).contains_key(n),
    ensures
        exists|i: int|
            0 <= i < schemas.len() && (#[trigger] schemas[i]).enabled && schemas[i].service.name@
                == n && texts(schemas[i].depends_on@) == declared(schemas)[n],
    decreases schemas.len(),
{
    let front = schemas.drop_last();
    let s = schemas.last();
    if s.enabled && s.service.name@ == n {
        assert(schemas[schemas.len() - 1] == s);
    } else {
        lemma_only_enabled_boot(front, n);
        let i = choose|i: int|
            0 <= i < front.len() && (#[trigger] front[i]).enabled && front[i].service.name@ == n
                && texts(front[i].depends_on@) == declared(front)[n];
        assert(schemas[i] == front[i]);
    }
}

/// Whether each service of `path` depends on the next one.
pub open spec fn is_chain(g: Graph, path: Seq<Seq<char>>) -> bool {
    forall|i: int|
        0 <= i < path.len() - 1 ==> g.contains_key(#[trigger] path[i]) && g[path[i]].contains(
            path[i + 1],
        )
}

/// A chain of `k` services that cannot be started, from `n` on.
proof fn lemma_stuck_chain(g: Graph, n: Seq<char>, k: nat) -> (path: Seq<Seq<char>>)
    requires
        g.contains_key(n),
        !grounded(g, n),
        forall|m: Seq<char>, i: int|
            g.contains_key(m) && 0 <= i < g[m].len() ==> g.contains_key(#[trigger] g[m][i]),
        k > 0,
    ensures
        path.len() == k,
        path[0] == n,
        is_chain(g, path),
        forall|i: int| 0 <= i < k ==> g.contains_key(#[trigger] path[i]),
    decreases k,
{
    if k == 1 {
        seq![n]
    } else {
        let j = lemma_stuck_dependency(g, n);
        let next = g[n][j];
        let tail = lemma_stuck_chain(g, next, (k - 1) as nat);
        let path = seq![n] + tail;
        assert(g[n].contains(next));
        assert forall|i: int| 0 <= i < path.len() - 1 implies g.contains_key(#[trigger] path[i])
            && g[path[i]].contains(path[i + 1]) by {
            if i > 0 {
                assert(path[i] == tail[i - 1]);
                assert(path[i + 1] == tail[i]);
            } else {
                assert(path[1] == tail[0]);
            }
        }
        assert forall|i: int| 0 <= i < k implies g.contains_key(#[trigger] path[i]) by {
            if i > 0 {
                assert(path[i] == tail[i - 1]);
            }
        }
        path
    }
}

/// A service that cannot be started depends on one that cannot.
pub proof fn lemma_stuck_dependency(g: Graph, n: Seq<char>) -> (j: int)
    requires
        g.contains_key(n),
        !grounded(g, n),
    ensures
        0 <= j < g[n].len(),
        !grounded(g, g[n][j]),
{
    if forall|j: int| 0 <= j < g[n].len() ==> grounded(g, #[trigger] g[n][j]) {
        let k = lemma_common_rounds(g, g[n]);
        assert forall|i: int| 0 <= i < g[n].len() implies grounded_within(
            g,
            #[trigger] g[n][i],
            ((k + 1) - 1) as nat,
        ) by {}
        assert(grounded_within(g, n, k + 1));
        assert(false);
    }
    choose|j: int| 0 <= j < g[n].len() && !grounded(g, #[trigger] g[n][j])
}

/// A number of rounds that is enough for all of `deps`.
proof fn lemma_common_rounds(g: Graph, deps: Seq<Seq<char>>) -> (k: nat)
    requires
        forall|j: int| 0 <= j < deps.len() ==> grounded(g, #[trigger] deps[j]),
    ensures
        forall|j: int| 0 <= j < deps.len() ==> grounded_within(g, #[trigger] deps[j], k),
    decreases deps.len(),
{
    if deps.len() == 0 {
        0
    } else {
        let front = deps.drop_last();
        assert forall|j: int| 0 <= j < front.len() implies grounded(g, #[trigger] front[j]) by {
            assert(front[j] == deps[j]);
        }
        let a = lemma_common_rounds(g, front);
        assert(grounded(g, deps[deps.len() - 1]));
        let b = choose|b: nat| grounded_within(g, deps.last(), b);
        let k = if a < b {
            b
        } else {
            a
        };
        lemma_grounded_monotone(g, deps.last(), b, k);
        assert forall|j: int| 0 <= j < deps.len() implies grounded_within(
            g,
            #[trigger] deps[j],
            k,
        ) by {
            if j < front.len() {
                assert(front[j] == deps[j]);
                lemma_grounded_monotone(g, front[j], a, k);
            }
        }
        k
    }
}

/// Where every dependency is in the graph, a chain of dependencies leads from a service that
/// cannot be started to one that it passes twice.
proof fn lemma_stuck_needs_cycle(g: Graph, n: Seq<char>) -> (r: (Seq<Seq<char>>, int, int))
    requires
        g.dom().finite(),
        g.contains_key(n),
        !grounded(g, n),
        forall|m: Seq<char>, i: int|
            g.contains_key(m) && 0 <= i < g[m].len() ==> g.contains_key(#[trigger] g[m][i]),
    ensures
        r.0.len() > 0,
        r.0[0] == n,
        is_chain(g, r.0),
        0 <= r.1 < r.2 < r.0.len(),
        r.0[r.1] == r.0[r.2],
{
    let path = lemma_stuck_chain(g, n, g.dom().len() + 1);
    if path.no_duplicates() {
        path.unique_seq_to_set();
        assert forall|x: Seq<char>| path.to_set().contains(x) implies g.dom().contains(x) by {
            assert(path.contains(x));
            assert(path[path.index_of(x)] == x);
        }
        vstd::set_lib::lemma_len_subset(path.to_set(), g.dom());
        assert(false);
    }
    let (i, j) = choose|i: int, j: int|
        0 <= i < path.len() && 0 <= j < path.len() && i != j && #[trigger] path[i]
            == #[trigger] path[j];
    if i < j {
        (path, i, j)
    } else {
        (path, j, i)
    }
}

proof fn lemma_declared_finite(schemas: Seq<ServiceSchema>)
    ensures
        declared(schemas).dom().finite(),
    decreases schemas.len(),
{
    if schemas.len() > 0 {
        let s = schemas.last();
        let before = declared(schemas.drop_last());
        lemma_declared_finite(schemas.drop_last());
        if s.enabled {
            assert(declared(schemas).dom() =~= before.dom().insert(s.service.name@));
        }
    }
}

proof fn lemma_none_unknown(deps: Seq<Seq<char>>, known: Set<Seq<char>>, j: int)
    requires
        first_unknown(deps, known) is None,
        0 <= j < deps.len(),
    ensures
        known.contains(deps[j]),
    decreases deps.len(),
{
    if j < deps.len() - 1 {
        assert(deps.drop_last()[j] == deps[j]);
        lemma_none_unknown(deps.drop_last(), known, j);
    }
}

/// Where nothing is missing, every dependency of an enabled service is known.
pub proof fn lemma_none_missing(schemas: Seq<ServiceSchema>, known: Set<Seq<char>>, i: int, j: int)
    requires
        first_missing(schemas, known) is None,
        0 <= i < schemas.len(),
        schemas[i].enabled,
        0 <= j < schemas[i].depends_on@.len(),
    ensures
        known.contains(schemas[i].depends_on@[j]@),
    decreases schemas.len(),
{
    if i < schemas.len() - 1 {
        assert(schemas.drop_last()[i] == schemas[i]);
        lemma_none_missing(schemas.drop_last(), known, i, j);
    } else {
        let deps = texts(schemas[i].depends_on@);
        assert(schemas.last() == schemas[i]);
        lemma_none_unknown(deps, known, j);
        assert(deps[j] == schemas[i].depends_on@[j]@);
    }
}

/// Law: a service is dropped only because of a cycle. From each service that a forged order
/// leaves out a chain of dependencies leads to one that it passes twice.
pub proof fn lemma_dropped_needs_cycle(
    schemas: Seq<ServiceSchema>,
    f: ForgedDag,
    n: Seq<char>,
) -> (r: (Seq<Seq<char>>, int, int))
    requires
        forged(schemas, Ok(f)),
        texts(f.dropped_cyclic@).contains(n),
    ensures
        r.0.len() > 0,
        r.0[0] == n,
        is_chain(declared(schemas), r.0),
        0 <= r.1 < r.2 < r.0.len(),
        r.0[r.1] == r.0[r.2],
{
    let g = declared(schemas);
    lemma_declared_finite(schemas);
    assert forall|m: Seq<char>, j: int|
        g.contains_key(m) && 0 <= j < g[m].len() implies g.contains_key(#[trigger] g[m][j]) by {
        lemma_only_enabled_boot(schemas, m);
        let i = choose|i: int|
            0 <= i < schemas.len() && (#[trigger] schemas[i]).enabled && schemas[i].service.name@
                == m && texts(schemas[i].depends_on@) == g[m];
        lemma_none_missing(schemas, g.dom(), i, j);
        assert(texts(schemas[i].depends_on@)[j] == schemas[i].depends_on@[j]@);
    }
    lemma_stuck_needs_cycle(g, n)
}

/// Law: no booted chain is longer than allowed. In a forged order every service has a depth,
/// and none is deeper than the bound.
pub proof fn lemma_booted_depth_bounded(schemas: Seq<ServiceSchema>, f: ForgedDag, n: Seq<char>)
    requires
        forged(schemas, Ok(f)),
        texts(f.boot_order@).contains(n),
    ensures
        grounded_within(declared(schemas), n, MAX_DAG_DEPTH as nat),
{
    assert(grounded(declared(schemas), n));
}

} // verus!
