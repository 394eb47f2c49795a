//! What forging a boot order promises, in terms of the definitions and the two lists.
use vstd::prelude::*;

use crate::dag::{
    build_dependency_graph, build_dependents, declared, forge_boot_order, graph_of, grounded,
    grounded_within, kahn_sort_with_leftover, list_at, validate, DagRuntime, ForgedDag, Graph,
};
use crate::names::{texts, NameMap};
use crate::schema::ServiceSchema;
use crate::SysXError;

verus! {

// ---------------------------------------------------------------------------
// Words for the laws
// ---------------------------------------------------------------------------

/// Whether no two enabled definitions have the same name.
pub open spec fn enabled_differ(schemas: Seq<ServiceSchema>) -> bool {
    forall|i: int, j: int|
        0 <= i < j < schemas.len() && (#[trigger] schemas[i]).enabled && (
        #[trigger] schemas[j]).enabled ==> schemas[i].service.name@ != schemas[j].service.name@
}

/// Whether a later enabled definition has the name of the one at `i`.
pub open spec fn replaced(schemas: Seq<ServiceSchema>, i: int) -> bool {
    exists|j: int|
        i < j < schemas.len() && (#[trigger] schemas[j]).enabled && schemas[j].service.name@
            == schemas[i].service.name@
}

/// Whether `n` is one of `names`.
pub open spec fn listed(names: Seq<String>, n: Seq<char>) -> bool {
    exists|p: int| 0 <= p < names.len() && (#[trigger] names[p])@ == n
}

/// Whether an enabled definition has the name `n`.
pub open spec fn provided(schemas: Seq<ServiceSchema>, n: Seq<char>) -> bool {
    exists|i: int|
        0 <= i < schemas.len() && (#[trigger] schemas[i]).enabled && schemas[i].service.name@ == n
}

/// Whether an enabled definition depends on a service that no enabled definition provides.
pub open spec fn lacks_dependency(schemas: Seq<ServiceSchema>) -> bool {
    exists|i: int, j: int|
        0 <= i < schemas.len() && schemas[i].enabled && 0 <= j < schemas[i].depends_on@.len()
            && !provided(schemas, (#[trigger] schemas[i].depends_on@[j])@)
}

/// Whether the enabled definition of `a` lists `b` as a dependency.
pub open spec fn depends_on(schemas: Seq<ServiceSchema>, a: Seq<char>, b: Seq<char>) -> bool {
    exists|i: int, j: int|
        0 <= i < schemas.len() && schemas[i].enabled && schemas[i].service.name@ == a && 0 <= j
            < schemas[i].depends_on@.len() && (#[trigger] schemas[i].depends_on@[j])@ == b
}

/// Whether each service of `path` depends on the next one.
pub open spec fn is_dependency_chain(schemas: Seq<ServiceSchema>, path: Seq<Seq<char>>) -> bool {
    forall|k: int| 0 <= k < path.len() - 1 ==> depends_on(schemas, #[trigger] path[k], path[k + 1])
}

proof fn lemma_listed(names: Seq<String>, n: Seq<char>)
    ensures
        listed(names, n) == texts(names).contains(n),
{
    if listed(names, n) {
        let p = choose|p: int| 0 <= p < names.len() && (#[trigger] names[p])@ == n;
        assert(texts(names)[p] == n);
    }
    if texts(names).contains(n) {
        let p = texts(names).index_of(n);
        assert(names[p]@ == n);
    }
}

// ---------------------------------------------------------------------------
// The declared graph
// ---------------------------------------------------------------------------

/// The graph holds every enabled definition, with exactly its dependencies unless a later one
/// takes its place.
proof fn lemma_declared_holds(schemas: Seq<ServiceSchema>, i: int)
    requires
        0 <= i < schemas.len(),
        schemas[i].enabled,
    ensures
        declared(schemas).contains_key(schemas[i].service.name@),
        !replaced(schemas, i) ==> declared(schemas)[schemas[i].service.name@] == texts(
            schemas[i].depends_on@,
        ),
        enabled_differ(schemas) ==> !replaced(schemas, i),
    decreases schemas.len(),
{
    let front = schemas.drop_last();
    if i < schemas.len() - 1 {
        assert(front[i] == schemas[i]);
        lemma_declared_holds(front, i);
        assert(schemas[schemas.len() - 1] == schemas.last());
        if !replaced(schemas, i) && replaced(front, i) {
            let j = choose|j: int|
                i < j < front.len() && (#[trigger] front[j]).enabled && front[j].service.name@
                    == front[i].service.name@;
            assert(schemas[j] == front[j]);
        }
    }
}

/// The graph holds nothing but enabled definitions.
proof fn lemma_declared_only(schemas: Seq<ServiceSchema>, n: Seq<char>)
    requires
        declared(schemas).contains_key(n),
    ensures
        provided(schemas, n),
{
    crate::dag::lemma_only_enabled_boot(schemas, n);
    let i = choose|i: int|
        0 <= i < schemas.len() && (#[trigger] schemas[i]).enabled && schemas[i].service.name@ == n
            && texts(schemas[i].depends_on@) == declared(schemas)[n];
    assert(schemas[i].enabled && schemas[i].service.name@ == n);
}

proof fn lemma_declared_provided(schemas: Seq<ServiceSchema>, n: Seq<char>)
    requires
        enabled_differ(schemas),
    ensures
        declared(schemas).contains_key(n) == provided(schemas, n),
{
    if provided(schemas, n) {
        let i = choose|i: int|
            0 <= i < schemas.len() && (#[trigger] schemas[i]).enabled && schemas[i].service.name@
                == n;
        lemma_declared_holds(schemas, i);
    }
    if declared(schemas).contains_key(n) {
        lemma_declared_only(schemas, n);
    }
}

proof fn lemma_declared_depends(schemas: Seq<ServiceSchema>, a: Seq<char>, b: Seq<char>)
    requires
        enabled_differ(schemas),
    ensures
        list_at(declared(schemas), a).contains(b) == depends_on(schemas, a, b),
{
    let g = declared(schemas);
    if depends_on(schemas, a, b) {
        let (i, j) = choose|i: int, j: int|
            0 <= i < schemas.len() && schemas[i].enabled && schemas[i].service.name@ == a && 0 <= j
                < schemas[i].depends_on@.len() && (#[trigger] schemas[i].depends_on@[j])@ == b;
        lemma_declared_holds(schemas, i);
        assert(texts(schemas[i].depends_on@)[j] == b);
    }
    if list_at(g, a).contains(b) {
        crate::dag::lemma_only_enabled_boot(schemas, a);
        let i = choose|i: int|
            0 <= i < schemas.len() && (#[trigger] schemas[i]).enabled && schemas[i].service.name@
                == a && texts(schemas[i].depends_on@) == g[a];
        let j = g[a].index_of(b);
        assert(texts(schemas[i].depends_on@)[j] == schemas[i].depends_on@[j]@);
    }
}

/// Law: the graph has a node for every enabled definition, however many dependencies it has,
/// with exactly these dependencies, and no other node. Of two definitions with one name the
/// later one counts.
pub proof fn lemma_graph_is_complete(
    schemas: &[ServiceSchema],
    graph: NameMap<Vec<String>>,
    i: int,
    n: Seq<char>,
)
    requires
        call_ensures(build_dependency_graph, (schemas,), graph),
        0 <= i < schemas@.len(),
    ensures
        schemas@[i].enabled ==> graph@.contains_key(schemas@[i].service.name@),
        schemas@[i].enabled && !replaced(schemas@, i) ==> texts(
            graph@[schemas@[i].service.name@]@,
        ) == texts(schemas@[i].depends_on@),
        graph@.contains_key(n) ==> provided(schemas@, n),
{
    let g = graph_of(graph@);
    assert(g == declared(schemas@));
    if schemas@[i].enabled {
        lemma_declared_holds(schemas@, i);
        assert(g.contains_key(schemas@[i].service.name@));
    }
    if graph@.contains_key(n) {
        assert(g.contains_key(n));
        lemma_declared_only(schemas@, n);
    }
}

/// Law: in the reversed graph a service lists exactly those that depend on it.
pub proof fn lemma_dependents_are_complete(
    graph: &NameMap<Vec<String>>,
    rev: NameMap<Vec<String>>,
    a: Seq<char>,
    b: Seq<char>,
)
    requires
        call_ensures(build_dependents, (graph,), rev),
    ensures
        (rev@.contains_key(a) && listed(rev@[a]@, b)) == (graph@.contains_key(b) && listed(
            graph@[b]@,
            a,
        )),
{
    crate::dag::lemma_reverse_edges(graph_of(graph@), graph_of(rev@), b, a);
    if rev@.contains_key(a) {
        lemma_listed(rev@[a]@, b);
    }
    if graph@.contains_key(b) {
        lemma_listed(graph@[b]@, a);
    }
}

/// Law: sorting places every service of a graph in one of the two lists, once; in the order it
/// comes behind its dependencies, and what is left over depends on something that is not in the
/// order.
pub proof fn lemma_sort_places_everything(
    graph: &NameMap<Vec<String>>,
    r: (Vec<String>, Vec<String>),
    n: Seq<char>,
    p: int,
    q: int,
    j: int,
)
    requires
        call_ensures(kahn_sort_with_leftover, (graph,), r),
    ensures
        graph@.contains_key(n) ==> listed(r.0@, n) != listed(r.1@, n),
        !graph@.contains_key(n) ==> !listed(r.0@, n) && !listed(r.1@, n),
        0 <= p < q < r.0@.len() ==> r.0@[p]@ != r.0@[q]@,
        0 <= p < q < r.1@.len() ==> r.1@[p]@ != r.1@[q]@,
        0 <= p < r.0@.len() && 0 <= j < graph@[r.0@[p]@]@.len() ==> texts(r.0@).take(p).contains(
            graph@[r.0@[p]@]@[j]@,
        ),
        listed(r.1@, n) ==> exists|i: int|
            0 <= i < graph@[n]@.len() && !listed(r.0@, (#[trigger] graph@[n]@[i])@),
{
    let g = graph_of(graph@);
    let order = texts(r.0@);
    let left = texts(r.1@);
    lemma_listed(r.0@, n);
    lemma_listed(r.1@, n);
    assert(g.contains_key(n) == graph@.contains_key(n));
    if order.contains(n) {
        assert(grounded(g, n));
        let k = choose|k: nat| grounded_within(g, n, k);
        assert(g.contains_key(n));
    }
    assert(order.contains(n) <==> grounded(g, n));
    assert(left.contains(n) <==> g.contains_key(n) && !grounded(g, n));
    if 0 <= p < q < order.len() {
        assert(order[p] != order[q]);
    }
    if 0 <= p < q < left.len() {
        assert(left[p] != left[q]);
    }
    if 0 <= p < r.0@.len() && 0 <= j < graph@[r.0@[p]@]@.len() {
        let m = order[p];
        assert(order.contains(m));
        let k = choose|k: nat| grounded_within(g, m, k);
        assert(g.contains_key(m));
        assert(g[m][j] == graph@[m]@[j]@);
        assert(order.take(p).contains(g[order[p]][j]));
    }
    if left.contains(n) {
        let i = crate::dag::lemma_stuck_dependency(g, n);
        assert(g[n][i] == graph@[n]@[i]@);
        lemma_listed(r.0@, g[n][i]);
        assert(order.contains(g[n][i]) <==> grounded(g, g[n][i]));
    }
}

// ---------------------------------------------------------------------------
// Forging
// ---------------------------------------------------------------------------

/// Law: every enabled service is accounted for: it boots or is dropped, and never both.
pub proof fn lemma_every_enabled_service_is_placed(
    schemas: &[ServiceSchema],
    r: Result<ForgedDag, SysXError>,
    i: int,
)
    requires
        call_ensures(forge_boot_order, (schemas,), r),
        r is Ok,
        0 <= i < schemas@.len(),
        schemas@[i].enabled,
    ensures
        listed(r->Ok_0.boot_order@, schemas@[i].service.name@) != listed(
            r->Ok_0.dropped_cyclic@,
            schemas@[i].service.name@,
        ),
{
    let f = r->Ok_0;
    let n = schemas@[i].service.name@;
    lemma_declared_holds(schemas@, i);
    crate::dag::lemma_boots_or_severed(
        declared(schemas@),
        texts(f.boot_order@),
        texts(f.dropped_cyclic@),
        n,
    );
    lemma_listed(f.boot_order@, n);
    lemma_listed(f.dropped_cyclic@, n);
}

/// Law: whatever boots or is dropped is an enabled service, and is listed once.
pub proof fn lemma_nothing_else_is_placed(
    schemas: &[ServiceSchema],
    r: Result<ForgedDag, SysXError>,
    p: int,
    q: int,
)
    requires
        call_ensures(forge_boot_order, (schemas,), r),
        r is Ok,
    ensures
        0 <= p < r->Ok_0.boot_order@.len() ==> provided(schemas@, r->Ok_0.boot_order@[p]@),
        0 <= p < r->Ok_0.dropped_cyclic@.len() ==> provided(schemas@, r->Ok_0.dropped_cyclic@[p]@),
        0 <= p < q < r->Ok_0.boot_order@.len() ==> r->Ok_0.boot_order@[p]@
            != r->Ok_0.boot_order@[q]@,
        0 <= p < q < r->Ok_0.dropped_cyclic@.len() ==> r->Ok_0.dropped_cyclic@[p]@
            != r->Ok_0.dropped_cyclic@[q]@,
{
    let f = r->Ok_0;
    let g = declared(schemas@);
    let boot = texts(f.boot_order@);
    let dropped = texts(f.dropped_cyclic@);
    if 0 <= p < boot.len() {
        assert(boot.contains(boot[p]));
        crate::dag::lemma_boots_or_severed(g, boot, dropped, boot[p]);
        lemma_declared_only(schemas@, boot[p]);
        if p < q < boot.len() {
            assert(boot[p] != boot[q]);
        }
    }
    if 0 <= p < dropped.len() {
        assert(dropped.contains(dropped[p]));
        lemma_declared_only(schemas@, dropped[p]);
        if p < q < dropped.len() {
            assert(dropped[p] != dropped[q]);
        }
    }
}

/// Law: a service boots behind everything that it depends on.
pub proof fn lemma_dependencies_boot_first(
    schemas: &[ServiceSchema],
    r: Result<ForgedDag, SysXError>,
    i: int,
    j: int,
    p: int,
)
    requires
        call_ensures(forge_boot_order, (schemas,), r),
        r is Ok,
        enabled_differ(schemas@),
        0 <= i < schemas@.len(),
        schemas@[i].enabled,
        0 <= j < schemas@[i].depends_on@.len(),
        0 <= p < r->Ok_0.boot_order@.len(),
        r->Ok_0.boot_order@[p]@ == schemas@[i].service.name@,
    ensures
        exists|q: int|
            0 <= q < p && (#[trigger] r->Ok_0.boot_order@[q])@ == schemas@[i].depends_on@[j]@,
{
    let f = r->Ok_0;
    let g = declared(schemas@);
    let boot = texts(f.boot_order@);
    lemma_declared_holds(schemas@, i);
    assert(g[boot[p]][j] == schemas@[i].depends_on@[j]@);
    assert(boot.take(p).contains(g[boot[p]][j]));
    let q = boot.take(p).index_of(g[boot[p]][j]);
    assert(boot.take(p)[q] == boot[q]);
    assert(f.boot_order@[q]@ == boot[q]);
}

/// Law: a service is dropped only because a service that it depends on is dropped too; so
/// nothing is dropped that is neither on a cycle nor depends on one.
pub proof fn lemma_dropped_with_a_dependency(
    schemas: &[ServiceSchema],
    r: Result<ForgedDag, SysXError>,
    i: int,
)
    requires
        call_ensures(forge_boot_order, (schemas,), r),
        r is Ok,
        enabled_differ(schemas@),
        0 <= i < schemas@.len(),
        schemas@[i].enabled,
        listed(r->Ok_0.dropped_cyclic@, schemas@[i].service.name@),
    ensures
        exists|j: int|
            0 <= j < schemas@[i].depends_on@.len() && listed(
                r->Ok_0.dropped_cyclic@,
                (#[trigger] schemas@[i].depends_on@[j])@,
            ),
{
    let f = r->Ok_0;
    let g = declared(schemas@);
    let n = schemas@[i].service.name@;
    lemma_declared_holds(schemas@, i);
    lemma_listed(f.dropped_cyclic@, n);
    let j = crate::dag::lemma_stuck_dependency(g, n);
    let d = schemas@[i].depends_on@[j]@;
    assert(g[n][j] == d);
    crate::dag::lemma_none_missing(schemas@, g.dom(), i, j);
    assert(g.contains_key(d));
    assert(texts(f.dropped_cyclic@).contains(d));
    lemma_listed(f.dropped_cyclic@, d);
}

/// Law: a missing dependency is refused, and a chain of more than sixteen dependencies in a row
/// among services that could boot; nothing else is.
pub proof fn lemma_refused_exactly(schemas: &[ServiceSchema], r: Result<ForgedDag, SysXError>)
    requires
        call_ensures(forge_boot_order, (schemas,), r),
        enabled_differ(schemas@),
    ensures
        lacks_dependency(schemas@) ==> r is Err,
        r is Err && !lacks_dependency(schemas@) ==> exists|path: Seq<Seq<char>>|
            path.len() == 18 && path.no_duplicates() && #[trigger] is_dependency_chain(
                schemas@,
                path,
            ),
{
    let g = declared(schemas@);
    if lacks_dependency(schemas@) {
        let (i, j) = choose|i: int, j: int|
            0 <= i < schemas@.len() && schemas@[i].enabled && 0 <= j
                < schemas@[i].depends_on@.len() && !provided(
                schemas@,
                (#[trigger] schemas@[i].depends_on@[j])@,
            );
        let d = schemas@[i].depends_on@[j]@;
        lemma_declared_provided(schemas@, d);
        if crate::dag::first_missing(schemas@, g.dom()) is None {
            crate::dag::lemma_none_missing(schemas@, g.dom(), i, j);
        }
    } else if r is Err {
        lemma_nothing_missing(schemas@);
        assert(!crate::dag::depth_at_most(g, 16));
        let n = choose|n: Seq<char>| #[trigger] grounded(g, n) && !grounded_within(g, n, 16);
        let path = lemma_deep_chain(schemas@, n, 16);
        assert(is_dependency_chain(schemas@, path));
    }
}

/// Law: of the dependencies that no enabled service provides, the first one is told: that of the
/// first enabled definition that lacks one, and the first one that it lacks.
pub proof fn lemma_first_missing_is_told(
    schemas: &[ServiceSchema],
    r: Result<ForgedDag, SysXError>,
    i: int,
    j: int,
)
    requires
        call_ensures(forge_boot_order, (schemas,), r),
        0 <= i < schemas@.len(),
        schemas@[i].enabled,
        0 <= j < schemas@[i].depends_on@.len(),
        !provided(schemas@, schemas@[i].depends_on@[j]@),
        forall|b: int|
            0 <= b < j ==> provided(schemas@, (#[trigger] schemas@[i].depends_on@[b])@),
        forall|a: int, b: int|
            0 <= a < i && schemas@[a].enabled && 0 <= b < schemas@[a].depends_on@.len()
                ==> provided(schemas@, (#[trigger] schemas@[a].depends_on@[b])@),
    ensures
        r is Err && r->Err_0 is Dag,
        r->Err_0->Dag_0@ == "service "@ + crate::text::debug_text(schemas@[i].service.name@)
            + " depends_on "@ + crate::text::debug_text(schemas@[i].depends_on@[j]@)
            + " which is missing or not enabled"@,
{
    let g = declared(schemas@);
    let known = g.dom();
    assert forall|n: Seq<char>| #[trigger] known.contains(n) == provided(schemas@, n) by {
        lemma_declared_keys(schemas@, n);
    }
    lemma_first_missing(schemas@, known, i, j);
}

proof fn lemma_declared_keys(schemas: Seq<ServiceSchema>, n: Seq<char>)
    ensures
        declared(schemas).contains_key(n) == provided(schemas, n),
{
    if provided(schemas, n) {
        let i = choose|i: int|
            0 <= i < schemas.len() && (#[trigger] schemas[i]).enabled && schemas[i].service.name@
                == n;
        lemma_declared_holds(schemas, i);
    }
    if declared(schemas).contains_key(n) {
        lemma_declared_only(schemas, n);
    }
}

proof fn lemma_first_unknown(deps: Seq<Seq<char>>, known: Set<Seq<char>>, j: int)
    requires
        0 <= j <= deps.len(),
        forall|b: int| 0 <= b < j ==> known.contains(#[trigger] deps[b]),
    ensures
        j == deps.len() ==> crate::dag::first_unknown(deps, known) is None,
        j < deps.len() && !known.contains(deps[j]) ==> crate::dag::first_unknown(deps, known)
            == Some(deps[j]),
    decreases deps.len(),
{
    if deps.len() > 0 {
        let front = deps.drop_last();
        let k = if j < deps.len() {
            j
        } else {
            j - 1
        };
        assert forall|b: int| 0 <= b < k implies known.contains(#[trigger] front[b]) by {
            assert(front[b] == deps[b]);
        }
        lemma_first_unknown(front, known, k);
        if j < front.len() {
            assert(front[j] == deps[j]);
        }
        assert(deps[deps.len() - 1] == deps.last());
    }
}

proof fn lemma_first_missing(schemas: Seq<ServiceSchema>, known: Set<Seq<char>>, i: int, j: int)
    requires
        0 <= i <= schemas.len(),
        forall|a: int, b: int|
            0 <= a < i && schemas[a].enabled && 0 <= b < schemas[a].depends_on@.len()
                ==> known.contains((#[trigger] schemas[a].depends_on@[b])@),
        i < schemas.len() ==> schemas[i].enabled && 0 <= j < schemas[i].depends_on@.len()
            && !known.contains(schemas[i].depends_on@[j]@),
        i < schemas.len() ==> forall|b: int|
            0 <= b < j ==> known.contains((#[trigger] schemas[i].depends_on@[b])@),
    ensures
        i == schemas.len() ==> crate::dag::first_missing(schemas, known) is None,
        i < schemas.len() ==> crate::dag::first_missing(schemas, known) == Some(
            (schemas[i].service.name@, schemas[i].depends_on@[j]@),
        ),
    decreases schemas.len(),
{
    if schemas.len() > 0 {
        let front = schemas.drop_last();
        let s = schemas.last();
        let deps = texts(s.depends_on@);
        let k = if i < schemas.len() {
            i
        } else {
            i - 1
        };
        assert forall|a: int, b: int|
            0 <= a < k && front[a].enabled && 0 <= b
                < front[a].depends_on@.len() implies known.contains(
            (#[trigger] front[a].depends_on@[b])@,
        ) by {
            assert(front[a] == schemas[a]);
            assert(known.contains(schemas[a].depends_on@[b]@));
        }
        if k < front.len() {
            assert(front[k] == schemas[k]);
        }
        lemma_first_missing(front, known, k, j);
        assert(schemas[schemas.len() - 1] == s);
        if i >= front.len() && s.enabled {
            let m = if i == front.len() {
                j
            } else {
                deps.len() as int
            };
            assert forall|b: int| 0 <= b < m implies known.contains(#[trigger] deps[b]) by {
                assert(deps[b] == schemas[schemas.len() - 1].depends_on@[b]@);
            }
            lemma_first_unknown(deps, known, m);
            if m < deps.len() {
                assert(deps[m] == s.depends_on@[m]@);
            }
        }
    }
}

/// Law: no chain of dependencies below a service that boots is longer than sixteen.
pub proof fn lemma_booted_chains_are_short(
    schemas: &[ServiceSchema],
    r: Result<ForgedDag, SysXError>,
    path: Seq<Seq<char>>,
)
    requires
        call_ensures(forge_boot_order, (schemas,), r),
        r is Ok,
        enabled_differ(schemas@),
        path.len() > 0,
        listed(r->Ok_0.boot_order@, path[0]),
        is_dependency_chain(schemas@, path),
    ensures
        path.len() <= 17,
{
    let g = declared(schemas@);
    lemma_listed(r->Ok_0.boot_order@, path[0]);
    assert(grounded(g, path[0]));
    lemma_chain_is_short(schemas@, path, 16);
}

proof fn lemma_chain_is_short(schemas: Seq<ServiceSchema>, path: Seq<Seq<char>>, k: nat)
    requires
        enabled_differ(schemas),
        path.len() > 0,
        is_dependency_chain(schemas, path),
        grounded_within(declared(schemas), path[0], k),
    ensures
        path.len() <= k + 1,
    decreases k,
{
    let g = declared(schemas);
    if path.len() > 1 {
        assert(depends_on(schemas, path[0], path[1]));
        lemma_declared_depends(schemas, path[0], path[1]);
        let j = g[path[0]].index_of(path[1]);
        assert(g[path[0]][j] == path[1]);
        let rest = path.skip(1);
        assert forall|i: int| 0 <= i < rest.len() - 1 implies depends_on(
            schemas,
            #[trigger] rest[i],
            rest[i + 1],
        ) by {
            assert(rest[i] == path[i + 1]);
            assert(rest[i + 1] == path[(i + 1) + 1]);
        }
        lemma_chain_is_short(schemas, rest, (k - 1) as nat);
    }
}

proof fn lemma_nothing_missing(schemas: Seq<ServiceSchema>)
    requires
        enabled_differ(schemas),
        !lacks_dependency(schemas),
    ensures
        crate::dag::first_missing(schemas, declared(schemas).dom()) is None,
{
    let known = declared(schemas).dom();
    assert forall|i: int, j: int|
        0 <= i < schemas.len() && schemas[i].enabled && 0 <= j < schemas[i].depends_on@.len()
            implies known.contains((#[trigger] schemas[i].depends_on@[j])@) by {
        lemma_declared_provided(schemas, schemas[i].depends_on@[j]@);
    }
    lemma_first_missing_none(schemas, known);
}

proof fn lemma_first_missing_none(schemas: Seq<ServiceSchema>, known: Set<Seq<char>>)
    requires
        forall|i: int, j: int|
            0 <= i < schemas.len() && schemas[i].enabled && 0 <= j < schemas[i].depends_on@.len()
                ==> known.contains((#[trigger] schemas[i].depends_on@[j])@),
    ensures
        crate::dag::first_missing(schemas, known) is None,
    decreases schemas.len(),
{
    if schemas.len() > 0 {
        let front = schemas.drop_last();
        assert forall|i: int, j: int|
            0 <= i < front.len() && front[i].enabled && 0 <= j < front[i].depends_on@.len()
                implies known.contains((#[trigger] front[i].depends_on@[j])@) by {
            assert(known.contains(schemas[i].depends_on@[j]@));
        }
        lemma_first_missing_none(front, known);
        let s = schemas.last();
        if s.enabled {
            let deps = texts(s.depends_on@);
            assert forall|j: int| 0 <= j < deps.len() implies known.contains(
                #[trigger] deps[j],
            ) by {
                assert(known.contains(schemas[schemas.len() - 1].depends_on@[j]@));
            }
            lemma_first_unknown_none(deps, known);
        }
    }
}

proof fn lemma_first_unknown_none(deps: Seq<Seq<char>>, known: Set<Seq<char>>)
    requires
        forall|j: int| 0 <= j < deps.len() ==> known.contains(#[trigger] deps[j]),
    ensures
        crate::dag::first_unknown(deps, known) is None,
    decreases deps.len(),
{
    if deps.len() > 0 {
        let front = deps.drop_last();
        assert forall|j: int| 0 <= j < front.len() implies known.contains(#[trigger] front[j]) by {
            assert(front[j] == deps[j]);
        }
        lemma_first_unknown_none(front, known);
        assert(deps[deps.len() - 1] == deps.last());
    }
}

/// Below a service that could boot, but not within `k` rounds, there is a chain of `k + 2`
/// services.
proof fn lemma_deep_chain(schemas: Seq<ServiceSchema>, n: Seq<char>, k: nat) -> (path: Seq<
    Seq<char>,
>)
    requires
        enabled_differ(schemas),
        grounded(declared(schemas), n),
        !grounded_within(declared(schemas), n, k),
    ensures
        path.len() == k + 2,
        path[0] == n,
        path.no_duplicates(),
        is_dependency_chain(schemas, path),
        forall|i: int| 0 <= i < path.len() ==> grounded(declared(schemas), #[trigger] path[i]),
    decreases k,
{
    let g = declared(schemas);
    let m = choose|m: nat| grounded_within(g, n, m);
    let path: Seq<Seq<char>>;
    if k == 0 {
        let d = g[n][0];
        assert(g[n].contains(d));
        lemma_declared_depends(schemas, n, d);
        assert(grounded_within(g, d, (m - 1) as nat));
        path = seq![n, d];
    } else {
        let j = choose|j: int|
            0 <= j < g[n].len() && !grounded_within(g, #[trigger] g[n][j], (k - 1) as nat);
        let d = g[n][j];
        assert(g[n].contains(d));
        lemma_declared_depends(schemas, n, d);
        assert(grounded_within(g, d, (m - 1) as nat));
        let rest = lemma_deep_chain(schemas, d, (k - 1) as nat);
        path = seq![n] + rest;
        assert forall|i: int| 0 < i < path.len() implies #[trigger] path[i] == rest[i - 1] by {}
    }
    assert(is_dependency_chain(schemas, path)) by {
        assert forall|i: int| 0 <= i < path.len() - 1 implies depends_on(
            schemas,
            #[trigger] path[i],
            path[i + 1],
        ) by {
            if i > 0 {
                assert(path[i] == path.skip(1)[i - 1]);
            }
        }
    }
    assert forall|i: int| 0 <= i < path.len() implies grounded(g, #[trigger] path[i]) by {}
    assert(path.no_duplicates()) by {
        assert forall|a: int, b: int| 0 <= a < b < path.len() implies path[a] != path[b] by {
            if path[a] == path[b] {
                lemma_passed_twice(schemas, path, a, b);
            }
        }
    }
    path
}

/// A service that a chain passes twice cannot boot.
proof fn lemma_passed_twice(schemas: Seq<ServiceSchema>, path: Seq<Seq<char>>, a: int, b: int)
    requires
        enabled_differ(schemas),
        is_dependency_chain(schemas, path),
        0 <= a < b < path.len(),
        path[a] == path[b],
    ensures
        !grounded(declared(schemas), path[a]),
{
    let g = declared(schemas);
    let cycle = path.subrange(a, b);
    assert forall|p: int| 0 <= p < cycle.len() implies g.contains_key(#[trigger] cycle[p])
        && g[cycle[p]].contains(
        cycle[if p + 1 < cycle.len() {
            p + 1
        } else {
            0
        }],
    ) by {
        assert(depends_on(schemas, path[a + p], path[(a + p) + 1]));
        lemma_declared_depends(schemas, path[a + p], path[a + p + 1]);
    }
    crate::dag::lemma_cycle_severed(g, cycle, 0);
}

/// Law: a set of definitions is valid exactly if it can be forged without dropping a service.
pub proof fn lemma_valid_exactly_if_nothing_dropped(
    schemas: &[ServiceSchema],
    f: Result<ForgedDag, SysXError>,
    r: Result<(), SysXError>,
)
    requires
        call_ensures(forge_boot_order, (schemas,), f),
        call_ensures(validate, (schemas,), r),
    ensures
        (r is Ok) == (f matches Ok(d) && d.dropped_cyclic@.len() == 0),
{
    let g = declared(schemas@);
    if r is Ok {
        assert(crate::dag::all_startable(g));
        assert(f is Ok);
        let dropped = texts(f->Ok_0.dropped_cyclic@);
        if dropped.len() > 0 {
            assert(dropped.contains(dropped[0]));
        }
    } else if f is Ok {
        let dropped = texts(f->Ok_0.dropped_cyclic@);
        assert(!crate::dag::all_startable(g));
        let n = choose|n: Seq<char>| #[trigger] g.contains_key(n) && !grounded(g, n);
        assert(dropped.contains(n));
        assert(dropped[dropped.index_of(n)] == n);
    }
}

// ---------------------------------------------------------------------------
// The graph at run time
// ---------------------------------------------------------------------------

/// The run-time graph, service by service.
proof fn lemma_filtered_exact(
    order: Seq<Seq<char>>,
    schemas: Map<Seq<char>, ServiceSchema>,
    allowed: Set<Seq<char>>,
    n: Seq<char>,
)
    requires
        forall|m: Seq<char>| #[trigger]
            schemas.contains_key(m) ==> schemas[m].service.name@ == m,
    ensures
        ({
            let g = crate::dag::filtered(order, schemas, allowed);
            &&& g.contains_key(n) == (order.contains(n) && schemas.contains_key(n)
                && allowed.contains(n))
            &&& g.contains_key(n) ==> g[n] == texts(schemas[n].depends_on@).filter(
                |d: Seq<char>| allowed.contains(d),
            )
        }),
    decreases order.len(),
{
    if order.len() > 0 {
        let front = order.drop_last();
        lemma_filtered_exact(front, schemas, allowed, n);
        assert(order.contains(n) == (front.contains(n) || n == order.last())) by {
            if front.contains(n) {
                assert(order[front.index_of(n)] == n);
            }
            if order.contains(n) && n != order.last() {
                let i = order.index_of(n);
                assert(front[i] == n);
            }
            assert(order[order.len() - 1] == order.last());
        }
        if schemas.contains_key(n) {
            lemma_kept_is_filter(texts(schemas[n].depends_on@), allowed);
        }
    }
}

proof fn lemma_kept_is_filter(deps: Seq<Seq<char>>, allowed: Set<Seq<char>>)
    ensures
        crate::dag::kept(deps, allowed) == deps.filter(|d: Seq<char>| allowed.contains(d)),
    decreases deps.len(),
{
    reveal(Seq::filter);
    if deps.len() > 0 {
        lemma_kept_is_filter(deps.drop_last(), allowed);
    }
}

/// Law: at run time a service depends on another exactly if both are in the boot order and its
/// own definition says so; and the other has it as a dependent exactly then.
pub proof fn lemma_runtime_edges_are_declared(
    f: &ForgedDag,
    schemas: &NameMap<ServiceSchema>,
    r: DagRuntime,
    a: Seq<char>,
    b: Seq<char>,
)
    requires
        call_ensures(DagRuntime::from_forged, (f, schemas), r),
        filed_by_name(schemas@),
    ensures
        r.dependencies_of(a).contains(b) == (listed(f.boot_order@, a) && listed(f.boot_order@, b)
            && schemas@.contains_key(a) && listed(schemas@[a].depends_on@, b)),
        r.dependents_of(b).contains(a) == r.dependencies_of(a).contains(b),
        texts(r.boot_order@) == texts(f.boot_order@),
{
    let order = texts(f.boot_order@);
    let allowed = order.to_set();
    lemma_listed(f.boot_order@, a);
    lemma_listed(f.boot_order@, b);
    lemma_filtered_exact(order, schemas@, allowed, a);
    if schemas@.contains_key(a) {
        let deps = texts(schemas@[a].depends_on@);
        lemma_listed(schemas@[a].depends_on@, b);
        lemma_filter_contains(deps, allowed, b);
    }
    crate::dag::lemma_reverse_edges(graph_of(r.graph@), graph_of(r.dependents@), a, b);
}

/// Whether every definition is filed under its own name.
pub open spec fn filed_by_name(schemas: Map<Seq<char>, ServiceSchema>) -> bool {
    forall|n: Seq<char>| #[trigger] schemas.contains_key(n) ==> schemas[n].service.name@ == n
}

proof fn lemma_filter_contains(deps: Seq<Seq<char>>, allowed: Set<Seq<char>>, b: Seq<char>)
    ensures
        deps.filter(|d: Seq<char>| allowed.contains(d)).contains(b) == (deps.contains(b)
            && allowed.contains(b)),
    decreases deps.len(),
{
    reveal(Seq::filter);
    let p = |d: Seq<char>| allowed.contains(d);
    if deps.len() > 0 {
        let front = deps.drop_last();
        let kept = front.filter(p);
        let l = deps.last();
        lemma_filter_contains(front, allowed, b);
        assert(deps.contains(b) == (front.contains(b) || b == l)) by {
            if front.contains(b) {
                assert(deps[front.index_of(b)] == b);
            }
            if deps.contains(b) && b != l {
                assert(front[deps.index_of(b)] == b);
            }
            assert(deps[deps.len() - 1] == l);
        }
        assert(kept.push(l).contains(b) == (kept.contains(b) || b == l)) by {
            if kept.contains(b) {
                assert(kept.push(l)[kept.index_of(b)] == b);
            }
            assert(kept.push(l)[kept.len() as int] == l);
            if kept.push(l).contains(b) && b != l {
                let i = kept.push(l).index_of(b);
                assert(kept[i] == b);
            }
        }
    }
}

} // verus!
