//! What holds of the library as a whole: statements that relate several of
//! its operations, proved over the models that their contracts speak of.

use crate::containers::ContainerModel;
use crate::containers::lemma_position_of_id;
use crate::containers::parent_key;
use crate::containers::position_of_id;
use crate::document::Document;
use crate::errors::Error;
use crate::errors::SchemaError;
use crate::graph::GraphModel;
use crate::injections::resolve_value;
use crate::providers::ContainerId;
use crate::providers::InjectionModel;
use crate::providers::ProviderId;
use crate::providers::ProviderKind;
use crate::providers::ProviderModel;
use crate::providers::passes_filter;
use crate::reference::parse_path;
use crate::reference::reference_prefix;
use crate::schema::process_schema;
use crate::symbols::ResolverModel;
use crate::text::first_index_from;
use crate::text::split;
use crate::traversal::TraverseModel;
use crate::traversal::advance;
use crate::traversal::drain;
use crate::traversal::lemma_advance_progress;
use crate::traversal::lemma_remaining_insert;
use crate::traversal::reachable;
use crate::traversal::reachable_within;
use crate::traversal::remaining;
use crate::traversal::unvisited;
use vstd::prelude::*;

verus! {

/// A provider refuses to override itself. Any other override succeeds, and
/// taking it back leaves the provider as it was.
pub proof fn law_override_then_reset(p: ProviderModel, q: ProviderId)
    ensures
        p.override_with(p.id) == Err::<ProviderModel, Error>(Error::SelfOverrideError),
        q != p.id ==> p.override_with(q) is Ok && p.override_with(q)->Ok_0.reset_last_overriding()
            == Ok::<ProviderModel, Error>(p),
{
    if q != p.id {
        assert(p.overridden.push(q).drop_last() =~= p.overridden);
    }
}

/// Whatever the override stack of a provider holds, resetting it leaves it empty.
pub proof fn law_reset_override_empties(p: ProviderModel)
    ensures
        p.reset_override().overridden.len() == 0,
        p.reset_override().last_overriding() is None,
        p.reset_override().wf(),
{
}

/// A container refuses a provider that does not satisfy its provider type,
/// under every name but `parent`. In particular a container of dependencies
/// refuses every provider that is not a dependency.
pub proof fn law_wrong_provider_type_refused(
    c: ContainerModel,
    name: Seq<char>,
    id: ProviderId,
    kind: ProviderKind,
)
    requires
        name != parent_key(),
    ensures
        !kind.satisfies(c.provider_type) ==> c.set_provider(name, id, kind) == Err::<
            ContainerModel,
            Error,
        >(Error::WrongProviderType),
        c.provider_type == ProviderKind::Dependency && kind != ProviderKind::Dependency
            ==> c.set_provider(name, id, kind) == Err::<ContainerModel, Error>(
            Error::WrongProviderType,
        ),
{
}

/// Assigning under the name `parent` succeeds and changes nothing, whatever
/// the provider is; and no assignment makes `parent` the name of a provider.
pub proof fn law_parent_is_never_a_provider(
    c: ContainerModel,
    name: Seq<char>,
    id: ProviderId,
    kind: ProviderKind,
)
    requires
        c.wf(),
    ensures
        c.set_provider(parent_key(), id, kind) == Ok::<ContainerModel, Error>(c),
        c.provider(parent_key()) is None,
        c.set_provider(name, id, kind) matches Ok(after) ==> after.provider(parent_key()) is None,
{
    if c.set_provider(name, id, kind) is Ok {
        c.lemma_set_provider_wf(name, id, kind);
    }
}

/// The name of a provider is found exactly if some name registers it, and
/// the name that is found registers it.
pub proof fn law_resolve_provider_name(c: ContainerModel, id: ProviderId)
    requires
        c.wf(),
    ensures
        !c.registers(id) ==> c.resolve_provider_name(id) == Err::<Seq<char>, Error>(
            Error::ProviderNotFound,
        ),
        c.registers(id) ==> c.resolve_provider_name(id) is Ok,
        c.resolve_provider_name(id) matches Ok(name) ==> c.provider(name) matches Some(found)
            && found.id == id,
{
    lemma_position_of_id(c.providers, id);
    let i = position_of_id(c.providers, id);
    if i < c.providers.len() {
        assert(c.providers[i].1.id == id);
        crate::table::lemma_find_is(c.providers, c.providers[i].0, i);
    } else {
        if c.registers(id) {
            let j = choose|j: int|
                0 <= j < c.providers.len() && (#[trigger] c.providers[j]).1.id == id;
            assert(false);
        }
    }
}

/// A schema without the key `container` is refused, and the graph stays as
/// it was: no provider is made.
pub proof fn law_missing_container_changes_nothing(
    g: GraphModel,
    r: ResolverModel,
    schema: Document,
    root: ContainerId,
)
    requires
        schema.get("container"@) is None,
    ensures
        process_schema(g, r, schema, root) == (
            g,
            Err::<(), Error>(Error::SchemaError(SchemaError::MissingContainer)),
        ),
{
}

/// Where a traversal stands between two steps, with `done` yielded so far.
spec fn consistent(
    g: GraphModel,
    start: Seq<ProviderId>,
    s: TraverseModel,
    done: Seq<ProviderId>,
) -> bool {
    &&& forall|p: ProviderId| #[trigger]
        s.visited.contains(p) ==> g.has_provider(p) && reachable(g, start, p)
    &&& forall|i: int|
        0 <= i < s.to_visit.len() ==> reachable(g, start, #[trigger] s.to_visit[i])
    &&& forall|i: int|
        0 <= i < start.len() ==> s.visited.contains(#[trigger] start[i]) || s.to_visit.contains(
            start[i],
        )
    &&& forall|v: ProviderId, i: int|
        s.visited.contains(v) && 0 <= i < g.related(v).len() ==> s.visited.contains(
            #[trigger] g.related(v)[i],
        ) || s.to_visit.contains(g.related(v)[i])
    &&& done.no_duplicates()
    &&& forall|p: ProviderId|
        #[trigger] done.contains(p) <==> s.visited.contains(p) && passes_filter(
            g.providers[p as int].kind(),
            s.types,
        )
}

/// What `unvisited` keeps: the elements that are not visited.
proof fn lemma_unvisited(items: Seq<ProviderId>, visited: Set<ProviderId>)
    ensures
        forall|x: ProviderId| #[trigger]
            unvisited(items, visited).contains(x) <==> items.contains(x) && !visited.contains(x),
    decreases items.len(),
{
    if items.len() > 0 {
        let front = items.drop_last();
        let last = items.last();
        lemma_unvisited(front, visited);
        assert forall|x: ProviderId| #[trigger]
            unvisited(items, visited).contains(x) <==> items.contains(x) && !visited.contains(
                x,
            ) by {
            if items.contains(x) {
                let i = choose|i: int| 0 <= i < items.len() && items[i] == x;
                if i < front.len() {
                    assert(front[i] == x);
                }
            }
            if front.contains(x) {
                let i = choose|i: int| 0 <= i < front.len() && front[i] == x;
                assert(items[i] == x);
            }
            assert(items[items.len() - 1] == last);
            let rest = unvisited(front, visited);
            if !visited.contains(last) {
                assert(rest.push(last)[rest.len() as int] == last);
                if rest.push(last).contains(x) {
                    let i = choose|i: int| 0 <= i < rest.push(last).len() && rest.push(last)[i] == x;
                    if i < rest.len() {
                        assert(rest[i] == x);
                    }
                }
                if rest.contains(x) {
                    let i = choose|i: int| 0 <= i < rest.len() && rest[i] == x;
                    assert(rest.push(last)[i] == x);
                }
            }
        }
    }
}

/// What is related to a provider that is reached is reached.
proof fn lemma_reachable_step(g: GraphModel, start: Seq<ProviderId>, q: ProviderId, p: ProviderId)
    requires
        reachable(g, start, q),
        g.has_provider(q),
        g.related(q).contains(p),
    ensures
        reachable(g, start, p),
{
    let steps = choose|steps: nat| reachable_within(g, start, q, steps);
    assert(reachable_within(g, start, p, steps + 1));
}

/// Visiting the head of the queue keeps a traversal consistent; the visited
/// provider joins those yielded where it passes the filter.
proof fn lemma_visit_consistent(
    g: GraphModel,
    start: Seq<ProviderId>,
    s: TraverseModel,
    done: Seq<ProviderId>,
)
    requires
        consistent(g, start, s, done),
        s.to_visit.len() > 0,
        !s.visited.contains(s.to_visit[0]),
        g.has_provider(s.to_visit[0]),
    ensures
        consistent(
            g,
            start,
            s.pop().visit(g, s.to_visit[0]),
            if passes_filter(g.providers[s.to_visit[0] as int].kind(), s.types) {
                done.push(s.to_visit[0])
            } else {
                done
            },
        ),
{
    let p = s.to_visit[0];
    let next = s.pop().visit(g, p);
    let rest = s.to_visit.drop_first();
    let added = unvisited(g.related(p), next.visited);
    let after = if passes_filter(g.providers[p as int].kind(), s.types) {
        done.push(p)
    } else {
        done
    };
    lemma_unvisited(g.related(p), next.visited);
    assert(reachable(g, start, p));
    assert forall|x: ProviderId| s.to_visit.contains(x) implies x == p || next.to_visit.contains(
        x,
    ) by {
        let i = choose|i: int| 0 <= i < s.to_visit.len() && s.to_visit[i] == x;
        if i > 0 {
            assert(rest[i - 1] == x);
            assert(next.to_visit[i - 1] == x);
        }
    }
    assert forall|x: ProviderId| added.contains(x) implies next.to_visit.contains(x) by {
        let i = choose|i: int| 0 <= i < added.len() && added[i] == x;
        assert(next.to_visit[rest.len() + i] == x);
    }
    assert forall|i: int| 0 <= i < next.to_visit.len() implies reachable(
        g,
        start,
        #[trigger] next.to_visit[i],
    ) by {
        if i < rest.len() {
            assert(next.to_visit[i] == s.to_visit[i + 1]);
        } else {
            let x = next.to_visit[i];
            assert(added[i - rest.len()] == x);
            assert(added.contains(x));
            lemma_reachable_step(g, start, p, x);
        }
    }
    assert forall|i: int| 0 <= i < start.len() implies next.visited.contains(#[trigger] start[i])
        || next.to_visit.contains(start[i]) by {
        if s.to_visit.contains(start[i]) {
        }
    }
    assert forall|v: ProviderId, i: int|
        next.visited.contains(v) && 0 <= i < g.related(v).len() implies next.visited.contains(
        #[trigger] g.related(v)[i],
    ) || next.to_visit.contains(g.related(v)[i]) by {
        let x = g.related(v)[i];
        if v == p {
            assert(g.related(p).contains(x));
            if !next.visited.contains(x) {
                assert(added.contains(x));
            }
        } else {
            if s.to_visit.contains(x) {
            }
        }
    }
    if passes_filter(g.providers[p as int].kind(), s.types) {
        assert(!done.contains(p));
        assert forall|i: int, j: int| 0 <= i < j < after.len() implies after[i] != after[j] by {
            if j == done.len() {
                assert(done.contains(done[i]));
            }
        }
        assert forall|x: ProviderId| #[trigger]
            after.contains(x) <==> next.visited.contains(x) && passes_filter(
                g.providers[x as int].kind(),
                next.types,
            ) by {
            assert(after[done.len() as int] == p);
            if after.contains(x) {
                let i = choose|i: int| 0 <= i < after.len() && after[i] == x;
                if i < done.len() {
                    assert(done[i] == x);
                    assert(done.contains(x));
                }
            }
            if done.contains(x) {
                let i = choose|i: int| 0 <= i < done.len() && done[i] == x;
                assert(after[i] == x);
            }
        }
    }
}

/// Dropping a visited head of the queue keeps a traversal consistent.
proof fn lemma_pop_consistent(
    g: GraphModel,
    start: Seq<ProviderId>,
    s: TraverseModel,
    done: Seq<ProviderId>,
)
    requires
        consistent(g, start, s, done),
        s.to_visit.len() > 0,
        s.visited.contains(s.to_visit[0]),
    ensures
        consistent(g, start, s.pop(), done),
{
    let p = s.to_visit[0];
    let next = s.pop();
    assert forall|x: ProviderId| s.to_visit.contains(x) implies x == p || next.to_visit.contains(
        x,
    ) by {
        let i = choose|i: int| 0 <= i < s.to_visit.len() && s.to_visit[i] == x;
        if i > 0 {
            assert(next.to_visit[i - 1] == x);
        }
    }
    assert forall|i: int| 0 <= i < next.to_visit.len() implies reachable(
        g,
        start,
        #[trigger] next.to_visit[i],
    ) by {
        assert(next.to_visit[i] == s.to_visit[i + 1]);
    }
    assert forall|i: int| 0 <= i < start.len() implies next.visited.contains(#[trigger] start[i])
        || next.to_visit.contains(start[i]) by {
        if s.to_visit.contains(start[i]) {
        }
    }
    assert forall|v: ProviderId, i: int|
        next.visited.contains(v) && 0 <= i < g.related(v).len() implies next.visited.contains(
        #[trigger] g.related(v)[i],
    ) || next.to_visit.contains(g.related(v)[i]) by {
        if s.to_visit.contains(g.related(v)[i]) {
        }
    }
}

/// One step keeps a traversal consistent. A step that yields nothing leaves
/// the queue empty; a step that fails has met a provider that is reached
/// from the start and that the graph does not have.
proof fn lemma_advance_consistent(
    g: GraphModel,
    start: Seq<ProviderId>,
    s: TraverseModel,
    done: Seq<ProviderId>,
)
    requires
        consistent(g, start, s, done),
    ensures
        match advance(g, s).1 {
            None => consistent(g, start, advance(g, s).0, done) && advance(g, s).0.to_visit.len()
                == 0,
            Some(Ok(p)) => consistent(g, start, advance(g, s).0, done.push(p)),
            Some(Err(_)) => exists|q: ProviderId| reachable(g, start, q) && !g.has_provider(q),
        },
        advance(g, s).0.types == s.types,
    decreases remaining(g.providers.len(), s.visited), s.to_visit.len(),
{
    if s.to_visit.len() > 0 {
        let p = s.to_visit[0];
        if s.visited.contains(p) {
            lemma_pop_consistent(g, start, s, done);
            lemma_advance_consistent(g, start, s.pop(), done);
        } else if !g.has_provider(p) {
            assert(reachable(g, start, p));
        } else {
            lemma_visit_consistent(g, start, s, done);
            if !passes_filter(g.providers[p as int].kind(), s.types) {
                lemma_remaining_insert(g.providers.len(), s.visited, p);
                lemma_advance_consistent(g, start, s.pop().visit(g, p), done);
            }
        }
    }
}

/// A whole traversal keeps consistent up to its end.
proof fn lemma_drain_consistent(
    g: GraphModel,
    start: Seq<ProviderId>,
    s: TraverseModel,
    done: Seq<ProviderId>,
)
    requires
        consistent(g, start, s, done),
    ensures
        match drain(g, s, done).1 {
            Ok(out) => consistent(g, start, drain(g, s, done).0, out) && drain(
                g,
                s,
                done,
            ).0.to_visit.len() == 0,
            Err(_) => exists|q: ProviderId| reachable(g, start, q) && !g.has_provider(q),
        },
        drain(g, s, done).0.types == s.types,
    decreases remaining(g.providers.len(), s.visited), s.to_visit.len(),
{
    lemma_advance_consistent(g, start, s, done);
    match advance(g, s).1 {
        Some(Ok(p)) => {
            lemma_advance_progress(g, s);
            lemma_drain_consistent(g, start, advance(g, s).0, done.push(p));
        },
        _ => {},
    }
}

/// In a consistent traversal with an empty queue, everything that is
/// reached from the start has been visited.
proof fn lemma_closed(
    g: GraphModel,
    start: Seq<ProviderId>,
    s: TraverseModel,
    done: Seq<ProviderId>,
    p: ProviderId,
    steps: nat,
)
    requires
        consistent(g, start, s, done),
        s.to_visit.len() == 0,
        reachable_within(g, start, p, steps),
    ensures
        s.visited.contains(p),
    decreases steps,
{
    if steps == 0 {
        let i = choose|i: int| 0 <= i < start.len() && start[i] == p;
        assert(s.visited.contains(start[i]) || s.to_visit.contains(start[i]));
    } else if reachable_within(g, start, p, (steps - 1) as nat) {
        lemma_closed(g, start, s, done, p, (steps - 1) as nat);
    } else {
        let q = choose|q: ProviderId|
            reachable_within(g, start, q, (steps - 1) as nat) && g.has_provider(q)
                && #[trigger] g.related(q).contains(p);
        lemma_closed(g, start, s, done, q, (steps - 1) as nat);
        let i = choose|i: int| 0 <= i < g.related(q).len() && g.related(q)[i] == p;
        assert(s.visited.contains(g.related(q)[i]) || s.to_visit.contains(g.related(q)[i]));
    }
}

/// A traversal from `providers` that comes to its end has yielded no
/// provider twice, whatever the related providers share and whatever cycles
/// they form; it has yielded exactly the providers that are reached from
/// `providers` and pass the filter; and the graph has every provider that is
/// reached.
pub proof fn law_traversal_yields_each_reached_provider_once(
    g: GraphModel,
    providers: Seq<ProviderId>,
    types: Option<Seq<ProviderKind>>,
    out: Seq<ProviderId>,
)
    requires
        drain(g, TraverseModel::start(providers, types), Seq::empty()).1 == Ok::<
            Seq<ProviderId>,
            Error,
        >(out),
    ensures
        out.no_duplicates(),
        forall|p: ProviderId|
            #[trigger] out.contains(p) <==> reachable(g, providers, p) && passes_filter(
                g.providers[p as int].kind(),
                types,
            ),
        forall|p: ProviderId| #[trigger] reachable(g, providers, p) ==> g.has_provider(p),
{
    let s = TraverseModel::start(providers, types);
    let none = Seq::<ProviderId>::empty();
    assert forall|i: int| 0 <= i < s.to_visit.len() implies reachable(
        g,
        providers,
        #[trigger] s.to_visit[i],
    ) by {
        assert(reachable_within(g, providers, s.to_visit[i], 0));
    }
    assert(consistent(g, providers, s, none));
    lemma_drain_consistent(g, providers, s, none);
    let end = drain(g, s, none).0;
    assert forall|p: ProviderId| #[trigger] reachable(g, providers, p) implies end.visited.contains(
        p,
    ) by {
        let steps = choose|steps: nat| reachable_within(g, providers, p, steps);
        lemma_closed(g, providers, end, out, p, steps);
    }
}

/// A traversal fails only where a provider that is reached from its start
/// is not in the graph.
pub proof fn law_traversal_fails_only_on_missing_providers(
    g: GraphModel,
    providers: Seq<ProviderId>,
    types: Option<Seq<ProviderKind>>,
)
    ensures
        drain(g, TraverseModel::start(providers, types), Seq::empty()).1 is Err <==> exists|
            q: ProviderId,
        |
            reachable(g, providers, q) && !g.has_provider(q),
{
    let s = TraverseModel::start(providers, types);
    let none = Seq::<ProviderId>::empty();
    assert forall|i: int| 0 <= i < s.to_visit.len() implies reachable(
        g,
        providers,
        #[trigger] s.to_visit[i],
    ) by {
        assert(reachable_within(g, providers, s.to_visit[i], 0));
    }
    assert(consistent(g, providers, s, none));
    lemma_drain_consistent(g, providers, s, none);
    if drain(g, s, none).1 is Ok {
        law_traversal_yields_each_reached_provider_once(
            g,
            providers,
            types,
            drain(g, s, none).1->Ok_0,
        );
    }
}

/// Parent links that lead some number of steps lead every smaller number of steps.
proof fn lemma_ancestor_prefix(g: GraphModel, c: ContainerId, steps: nat, fewer: nat)
    requires
        g.ancestor(c, steps) is Some,
        fewer <= steps,
    ensures
        g.ancestor(c, fewer) is Some,
        g.has_container(g.ancestor(c, fewer)->Some_0),
    decreases fewer,
{
    if fewer > 0 {
        let p = g.containers[c as int].parent->Some_0;
        lemma_ancestor_prefix(g, p, (steps - 1) as nat, (fewer - 1) as nat);
    }
}

/// Walking `a` steps and then `b` steps is walking `a + b` steps.
proof fn lemma_ancestor_compose(g: GraphModel, c: ContainerId, a: nat, b: nat)
    requires
        g.ancestor(c, a) is Some,
    ensures
        g.ancestor(c, a + b) == g.ancestor(g.ancestor(c, a)->Some_0, b),
    decreases a,
{
    if a > 0 {
        let p = g.containers[c as int].parent->Some_0;
        lemma_ancestor_compose(g, p, (a - 1) as nat, b);
    }
}

/// A walk that runs out of its budget has followed as many links as the budget allows.
proof fn lemma_exhausted_walk(g: GraphModel, c: ContainerId, budget: nat)
    requires
        g.parent_name_within(c, budget) == Err::<Option<Seq<char>>, Error>(
            Error::CyclicParentError,
        ),
    ensures
        g.ancestor(c, budget) is Some,
    decreases budget,
{
    if budget > 0 {
        let p = g.containers[c as int].parent->Some_0;
        lemma_exhausted_walk(g, p, (budget - 1) as nat);
    }
}

/// Parent links that never end exhaust every budget.
proof fn lemma_endless_walk(g: GraphModel, c: ContainerId, budget: nat)
    requires
        forall|k: nat| (#[trigger] g.ancestor(c, k)) is Some,
    ensures
        g.parent_name_within(c, budget) == Err::<Option<Seq<char>>, Error>(
            Error::CyclicParentError,
        ),
    decreases budget,
{
    assert(g.ancestor(c, 0) is Some);
    if budget > 0 {
        assert(g.ancestor(c, 1) is Some);
        let p = g.containers[c as int].parent->Some_0;
        assert forall|k: nat| (#[trigger] g.ancestor(p, k)) is Some by {
            assert(g.ancestor(c, k + 1) is Some);
        }
        lemma_endless_walk(g, p, (budget - 1) as nat);
    }
}

/// Parent links that pass a container twice never end.
proof fn lemma_cycle_is_endless(g: GraphModel, c: ContainerId, i: nat, j: nat, k: nat)
    requires
        i < j,
        g.ancestor(c, i) is Some,
        g.ancestor(c, i) == g.ancestor(c, j),
    ensures
        g.ancestor(c, k) is Some,
    decreases k,
{
    if k <= j {
        lemma_ancestor_prefix(g, c, j, k);
    } else {
        let back = (k - (j - i)) as nat;
        lemma_cycle_is_endless(g, c, i, j, back);
        lemma_ancestor_compose(g, c, i, (back - i) as nat);
        lemma_ancestor_compose(g, c, j, (k - j) as nat);
        assert(i + (back - i) as nat == back);
        assert(j + (k - j) as nat == k);
    }
}

/// More containers in a row than the graph has hold one of them twice.
proof fn lemma_walk_repeats(g: GraphModel, c: ContainerId)
    requires
        g.ancestor(c, g.containers.len()) is Some,
    ensures
        g.parent_cycle(c),
{
    let n = g.containers.len();
    let walk = Seq::new(n + 1, |k: int| g.ancestor(c, k as nat)->Some_0 as int);
    assert forall|k: int| 0 <= k <= n implies g.ancestor(c, k as nat) is Some && 0
        <= #[trigger] walk[k] < n by {
        lemma_ancestor_prefix(g, c, n, k as nat);
    }
    if walk.no_duplicates() {
        walk.unique_seq_to_set();
        vstd::set_lib::lemma_int_range(0, n as int);
        assert(walk.to_set().subset_of(vstd::set_lib::set_int_range(0, n as int))) by {
            assert forall|x: int| walk.to_set().contains(x) implies vstd::set_lib::set_int_range(
                0,
                n as int,
            ).contains(x) by {
                let k = choose|k: int| 0 <= k < walk.len() && walk[k] == x;
                assert(0 <= walk[k] < n);
            }
        }
        vstd::set_lib::lemma_len_subset(walk.to_set(), vstd::set_lib::set_int_range(0, n as int));
        assert(false);
    }
    let (i, j) = choose|i: int, j: int|
        0 <= i < walk.len() && 0 <= j < walk.len() && i != j && walk[i] == walk[j];
    let (lo, hi) = if i < j {
        (i as nat, j as nat)
    } else {
        (j as nat, i as nat)
    };
    assert(g.ancestor(c, lo) is Some && g.ancestor(c, hi) is Some);
    assert(walk[lo as int] == walk[hi as int]);
    assert(g.ancestor(c, lo) == g.ancestor(c, hi));
}

/// The parent name of a container is refused as cyclic exactly where its
/// parent links pass some container twice.
pub proof fn law_parent_cycle_is_reported(g: GraphModel, c: ContainerId)
    ensures
        g.parent_name(c) == Err::<Option<Seq<char>>, Error>(Error::CyclicParentError)
            <==> g.parent_cycle(c),
{
    if g.parent_name(c) == Err::<Option<Seq<char>>, Error>(Error::CyclicParentError) {
        lemma_exhausted_walk(g, c, g.containers.len());
        lemma_walk_repeats(g, c);
    }
    if g.parent_cycle(c) {
        let (i, j) = choose|i: nat, j: nat|
            i < j && (#[trigger] g.ancestor(c, i)) is Some && g.ancestor(c, i)
                == #[trigger] g.ancestor(c, j);
        assert forall|k: nat| (#[trigger] g.ancestor(c, k)) is Some by {
            lemma_cycle_is_endless(g, c, i, j, k);
        }
        lemma_endless_walk(g, c, g.containers.len());
    }
}

/// A character that a string does not hold is not found in it.
proof fn lemma_absent(s: Seq<char>, c: char, from: int)
    requires
        !s.contains(c),
        0 <= from <= s.len(),
    ensures
        first_index_from(s, c, from) == s.len(),
    decreases s.len() - from,
{
    if from < s.len() {
        assert(s.contains(s[from]));
        lemma_absent(s, c, from + 1);
    }
}

/// A cross-reference of one step without a call marker stands for the
/// provider that the root container registers under the name of the step:
/// for the very provider, not a copy. Where the root container registers
/// nothing under the name, the reference is not found.
pub proof fn law_reference_names_the_registered_provider(
    g: GraphModel,
    r: ResolverModel,
    root: ContainerId,
    name: Seq<char>,
)
    requires
        g.has_container(root),
        !name.contains('.'),
        !name.contains('('),
    ensures
        resolve_value(g, r, root, Document::Text(reference_prefix() + name)) == (
            g,
            match g.containers[root as int].provider(name) {
                Some(found) => Ok::<InjectionModel, Error>(InjectionModel::Provider(found.id)),
                None => Err::<InjectionModel, Error>(Error::ProviderNotFound),
            },
        ),
{
    let text = reference_prefix() + name;
    assert(text.subrange(0, reference_prefix().len() as int) =~= reference_prefix());
    assert(text.skip(reference_prefix().len() as int) =~= name);
    lemma_absent(name, '.', 0);
    lemma_absent(name, '(', 0);
    assert(split(name, '.') =~= seq![name]);
    assert(parse_path(name) =~= seq![(name, false)]);
}

} // verus!
