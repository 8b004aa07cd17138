//! Breadth-first discovery of the providers that a set of providers leads to.

use crate::errors::Error;
use crate::graph::Graph;
use crate::graph::GraphModel;
use crate::providers::ProviderId;
use crate::providers::ProviderKind;
use crate::providers::passes_filter;
use std::collections::HashSet;
use std::collections::VecDeque;
use vstd::prelude::*;

verus! {

/// How many of the identities below `n` are not in `visited`.
pub open spec fn remaining(n: nat, visited: Set<ProviderId>) -> nat
    decreases n,
{
    if n == 0 {
        0
    } else if visited.contains((n - 1) as ProviderId) {
        remaining((n - 1) as nat, visited)
    } else {
        1 + remaining((n - 1) as nat, visited)
    }
}

/// The elements of `items` that are not in `visited`, in order.
pub open spec fn unvisited(items: Seq<ProviderId>, visited: Set<ProviderId>) -> Seq<ProviderId>
    decreases items.len(),
{
    if items.len() == 0 {
        Seq::empty()
    } else if visited.contains(items.last()) {
        unvisited(items.drop_last(), visited)
    } else {
        unvisited(items.drop_last(), visited).push(items.last())
    }
}

/// Visiting one more provider of the graph leaves fewer to visit.
pub proof fn lemma_remaining_insert(n: nat, visited: Set<ProviderId>, p: ProviderId)
    ensures
        remaining(n, visited.insert(p)) <= remaining(n, visited),
        p < n && !visited.contains(p) ==> remaining(n, visited.insert(p)) < remaining(n, visited),
    decreases n,
{
    if n > 0 {
        lemma_remaining_insert((n - 1) as nat, visited, p);
    }
}

/// Whether `p` is reached from `start` in at most `steps` steps along the
/// related providers of the providers of the graph.
pub open spec fn reachable_within(
    g: GraphModel,
    start: Seq<ProviderId>,
    p: ProviderId,
    steps: nat,
) -> bool
    decreases steps,
{
    if steps == 0 {
        start.contains(p)
    } else {
        reachable_within(g, start, p, (steps - 1) as nat) || exists|q: ProviderId|
            reachable_within(g, start, q, (steps - 1) as nat) && g.has_provider(q)
                && #[trigger] g.related(q).contains(p)
    }
}

/// Whether `p` is one of `start`, or is related to a provider of the graph
/// that is reached from `start`.
pub open spec fn reachable(g: GraphModel, start: Seq<ProviderId>, p: ProviderId) -> bool {
    exists|steps: nat| reachable_within(g, start, p, steps)
}

/// The mathematical content of a [`Traverse`].
pub struct TraverseModel {
    /// The providers that the traversal started from.
    pub providers: Seq<ProviderId>,
    pub visited: Set<ProviderId>,
    pub to_visit: Seq<ProviderId>,
    /// The kinds that are yielded; every kind where there is no filter.
    pub types: Option<Seq<ProviderKind>>,
}

impl TraverseModel {
    /// A traversal that has visited nothing and is about to visit `providers`.
    pub open spec fn start(providers: Seq<ProviderId>, types: Option<Seq<ProviderKind>>) -> Self {
        TraverseModel { providers, visited: Set::empty(), to_visit: providers, types }
    }

    /// The traversal after visiting `p`: `p` is marked, and its related
    /// providers that are not marked are put at the end of the queue.
    pub open spec fn visit(self, g: GraphModel, p: ProviderId) -> Self {
        let visited = self.visited.insert(p);
        TraverseModel {
            visited,
            to_visit: self.to_visit + unvisited(g.related(p), visited),
            ..self
        }
    }

    /// The traversal without the head of its queue.
    pub open spec fn pop(self) -> Self {
        TraverseModel { to_visit: self.to_visit.drop_first(), ..self }
    }
}

/// One step of a traversal: the state after it, and what it yields.
///
/// Providers are taken from the head of the queue. One that was visited
/// before is dropped. One that the graph does not have ends the step with an
/// error. Any other is visited, and yielded if it passes the filter; if it
/// does not, the step goes on. The step yields nothing once the queue is
/// empty.
pub open spec fn advance(g: GraphModel, s: TraverseModel) -> (
    TraverseModel,
    Option<Result<ProviderId, Error>>,
)
    decreases remaining(g.providers.len(), s.visited), s.to_visit.len(),
{
    if s.to_visit.len() == 0 {
        (s, None)
    } else {
        let p = s.to_visit[0];
        if s.visited.contains(p) {
            advance(g, s.pop())
        } else if !g.has_provider(p) {
            (s.pop(), Some(Err(Error::ProviderNotFound)))
        } else {
            let next = s.pop().visit(g, p);
            if passes_filter(g.providers[p as int].kind(), s.types) {
                (next, Some(Ok(p)))
            } else {
                proof {
                    lemma_remaining_insert(g.providers.len(), s.visited, p);
                }
                advance(g, next)
            }
        }
    }
}

/// Every step of a traversal until it yields nothing, or fails: the state
/// at the end, and `done` followed by the providers that were yielded.
pub open spec fn drain(g: GraphModel, s: TraverseModel, done: Seq<ProviderId>) -> (
    TraverseModel,
    Result<Seq<ProviderId>, Error>,
)
    decreases remaining(g.providers.len(), s.visited), s.to_visit.len(),
{
    let (next, yielded) = advance(g, s);
    match yielded {
        None => (next, Ok(done)),
        Some(Err(e)) => (next, Err(e)),
        Some(Ok(p)) => {
            proof {
                lemma_advance_progress(g, s);
            }
            drain(g, next, done.push(p))
        },
    }
}

/// A step that yields a provider leaves fewer providers to visit; any step
/// leaves no more to do than there was.
pub proof fn lemma_advance_progress(g: GraphModel, s: TraverseModel)
    ensures
        remaining(g.providers.len(), advance(g, s).0.visited) <= remaining(
            g.providers.len(),
            s.visited,
        ),
        advance(g, s).1 matches Some(Ok(_)) ==> remaining(
            g.providers.len(),
            advance(g, s).0.visited,
        ) < remaining(g.providers.len(), s.visited),
    decreases remaining(g.providers.len(), s.visited), s.to_visit.len(),
{
    if s.to_visit.len() > 0 {
        let p = s.to_visit[0];
        if s.visited.contains(p) {
            lemma_advance_progress(g, s.pop());
        } else if !g.has_provider(p) {
        } else {
            lemma_remaining_insert(g.providers.len(), s.visited, p);
            if !passes_filter(g.providers[p as int].kind(), s.types) {
                lemma_advance_progress(g, s.pop().visit(g, p));
            }
        }
    }
}

/// A breadth-first walk over the related providers of a set of providers.
/// It yields each provider that it reaches once, and cannot be restarted.
#[derive(Debug)]
pub struct Traverse {
    providers: Vec<ProviderId>,
    visited: HashSet<usize>,
    to_visit: VecDeque<ProviderId>,
    types: Option<Vec<ProviderKind>>,
}

impl View for Traverse {
    type V = TraverseModel;

    closed spec fn view(&self) -> TraverseModel {
        TraverseModel {
            providers: self.providers@,
            visited: self.visited@,
            to_visit: self.to_visit@,
            types: match self.types {
                Some(t) => Some(t@),
                None => None,
            },
        }
    }
}

/// The content of an optional type filter.
pub open spec fn types_view(types: Option<Vec<ProviderKind>>) -> Option<Seq<ProviderKind>> {
    match types {
        Some(t) => Some(t@),
        None => None,
    }
}

impl Traverse {
    /// A traversal that starts from `providers` and yields the providers
    /// whose kind satisfies one of `types`, or all where no types are given.
    pub fn new(providers: Vec<ProviderId>, types: Option<Vec<ProviderKind>>) -> (r: Self)
        ensures
            r@ == TraverseModel::start(providers@, types_view(types)),
    {
        broadcast use vstd::std_specs::hash::group_hash_axioms;

        let mut to_visit: VecDeque<ProviderId> = VecDeque::new();
        let mut i: usize = 0;
        while i < providers.len()
            invariant
                i <= providers.len(),
                to_visit@ == providers@.take(i as int),
            decreases providers.len() - i,
        {
            to_visit.push_back(providers[i]);
            i += 1;
            assert(to_visit@ =~= providers@.take(i as int));
        }
        assert(providers@.take(providers.len() as int) =~= providers@);
        Traverse { providers, visited: HashSet::new(), to_visit, types }
    }

    /// The providers that the traversal started from.
    pub fn providers(&self) -> (r: &Vec<ProviderId>)
        ensures
            r@ == self@.providers,
    {
        &self.providers
    }

    /// Whether a provider of kind `kind` passes the type filter.
    pub fn accepts(&self, kind: ProviderKind) -> (r: bool)
        ensures
            r == passes_filter(kind, self@.types),
    {
        match &self.types {
            None => true,
            Some(types) => {
                let mut i: usize = 0;
                while i < types.len()
                    invariant
                        i <= types.len(),
                        self@.types == Some(types@),
                        forall|j: int| 0 <= j < i ==> !kind.satisfies(#[trigger] types@[j]),
                    decreases types.len() - i,
                {
                    if kind.is_instance(types[i]) {
                        assert(kind.satisfies(types@[i as int]));
                        return true;
                    }
                    i += 1;
                }
                false
            },
        }
    }

    /// Marks `visiting` as visited and puts its related providers that are
    /// not marked at the end of the queue. A provider that the graph does
    /// not have is refused, and the traversal stays as it was.
    pub fn visit(&mut self, graph: &Graph, visiting: ProviderId) -> (r: Result<ProviderId, Error>)
        requires
            graph.wf(),
        ensures
            match r {
                Ok(visited) => {
                    &&& graph@.has_provider(visiting)
                    &&& visited == visiting
                    &&& final(self)@ == old(self)@.visit(graph@, visiting)
                },
                Err(e) => {
                    &&& !graph@.has_provider(visiting)
                    &&& e == Error::ProviderNotFound
                    &&& final(self)@ == old(self)@
                },
            },
    {
        broadcast use vstd::std_specs::hash::group_hash_axioms;

        let related = match graph.related(visiting) {
            Ok(related) => related,
            Err(e) => {
                return Err(e);
            },
        };
        self.visited.insert(visiting);
        let ghost queue = self.to_visit@;
        let mut i: usize = 0;
        assert(related@.take(0) =~= Seq::empty());
        assert(self.to_visit@ =~= queue + unvisited(related@.take(0), self.visited@));
        while i < related.len()
            invariant
                i <= related.len(),
                self.providers == old(self).providers,
                self.types == old(self).types,
                self.visited@ == old(self).visited@.insert(visiting),
                self.to_visit@ == queue + unvisited(related@.take(i as int), self.visited@),
            decreases related.len() - i,
        {
            proof {
                assert(related@.take(i + 1).drop_last() =~= related@.take(i as int));
                assert(related@.take(i + 1).last() == related[i as int]);
            }
            let candidate = related[i];
            if !self.visited.contains(&candidate) {
                self.to_visit.push_back(candidate);
            }
            i += 1;
            assert(self.to_visit@ =~= queue + unvisited(related@.take(i as int), self.visited@));
        }
        assert(related@.take(related.len() as int) =~= related@);
        Ok(visiting)
    }

    /// The next provider of the traversal; see [`advance`].
    pub fn next(&mut self, graph: &Graph) -> (r: Option<Result<ProviderId, Error>>)
        requires
            graph.wf(),
        ensures
            (final(self)@, r) == advance(graph@, old(self)@),
    {
        broadcast use vstd::std_specs::hash::group_hash_axioms;

        loop
            invariant
                graph.wf(),
                advance(graph@, old(self)@) == advance(graph@, self@),
            decreases remaining(graph@.providers.len(), self@.visited), self@.to_visit.len(),
        {
            let ghost before = self@;
            let visiting = match self.to_visit.pop_front() {
                Some(p) => p,
                None => {
                    return None;
                },
            };
            assert(self@ == before.pop());
            if self.visited.contains(&visiting) {
                continue ;
            }
            let provider = match graph.provider(visiting) {
                Some(provider) => provider,
                None => {
                    return Some(Err(Error::ProviderNotFound));
                },
            };
            let kind = provider.kind();
            let accepted = self.accepts(kind);
            proof {
                lemma_remaining_insert(graph@.providers.len(), before.visited, visiting);
            }
            match self.visit(graph, visiting) {
                Ok(found) => {
                    if accepted {
                        return Some(Ok(found));
                    }
                },
                Err(e) => {
                    return Some(Err(e));
                },
            }
        }
    }

    /// Every provider that the traversal still yields, in order; the first
    /// failure ends it. See [`drain`].
    pub fn collect(&mut self, graph: &Graph) -> (r: Result<Vec<ProviderId>, Error>)
        requires
            graph.wf(),
        ensures
            match r {
                Ok(found) => drain(graph@, old(self)@, Seq::empty()) == (
                    final(self)@,
                    Ok::<Seq<ProviderId>, Error>(found@),
                ),
                Err(e) => drain(graph@, old(self)@, Seq::empty()) == (
                    final(self)@,
                    Err::<Seq<ProviderId>, Error>(e),
                ),
            },
    {
        let mut out: Vec<ProviderId> = Vec::new();
        loop
            invariant
                graph.wf(),
                drain(graph@, old(self)@, Seq::empty()) == drain(graph@, self@, out@),
            decreases remaining(graph@.providers.len(), self@.visited), self@.to_visit.len(),
        {
            proof {
                lemma_advance_progress(graph@, self@);
            }
            match self.next(graph) {
                None => {
                    return Ok(out);
                },
                Some(Err(e)) => {
                    return Err(e);
                },
                Some(Ok(p)) => {
                    out.push(p);
                },
            }
        }
    }
}

/// Every provider that is reached from `providers` and passes the filter,
/// each once, in breadth-first order. It fails where a provider that is
/// reached is not in the graph.
pub fn discover(graph: &Graph, providers: Vec<ProviderId>, types: Option<Vec<ProviderKind>>) -> (r:
    Result<Vec<ProviderId>, Error>)
    requires
        graph.wf(),
    ensures
        match r {
            Ok(found) => {
                &&& found@.no_duplicates()
                &&& forall|p: ProviderId|
                    #[trigger] found@.contains(p) <==> reachable(graph@, providers@, p)
                        && passes_filter(graph@.providers[p as int].kind(), types_view(types))
                &&& drain(
                    graph@,
                    TraverseModel::start(providers@, types_view(types)),
                    Seq::empty(),
                ).1 == Ok::<Seq<ProviderId>, Error>(found@)
            },
            Err(e) => e == Error::ProviderNotFound && exists|q: ProviderId|
                reachable(graph@, providers@, q) && !graph@.has_provider(q),
        },
{
    let ghost start = providers@;
    let ghost filter = types_view(types);
    let mut walk = Traverse::new(providers, types);
    let r = walk.collect(graph);
    proof {
        crate::laws::law_traversal_fails_only_on_missing_providers(graph@, start, filter);
        match &r {
            Ok(found) => {
                crate::laws::law_traversal_yields_each_reached_provider_once(
                    graph@,
                    start,
                    filter,
                    found@,
                );
            },
            Err(_) => {
                lemma_drain_error(graph@, TraverseModel::start(start, filter), Seq::empty());
            },
        }
    }
    r
}

/// The only failure of a traversal is a provider that is not found.
pub proof fn lemma_drain_error(g: GraphModel, s: TraverseModel, done: Seq<ProviderId>)
    ensures
        drain(g, s, done).1 matches Err(e) ==> e == Error::ProviderNotFound,
    decreases remaining(g.providers.len(), s.visited), s.to_visit.len(),
{
    lemma_advance_error(g, s);
    match advance(g, s).1 {
        Some(Ok(p)) => {
            lemma_advance_progress(g, s);
            lemma_drain_error(g, advance(g, s).0, done.push(p));
        },
        _ => {},
    }
}

/// The only failure of a step is a provider that is not found.
pub proof fn lemma_advance_error(g: GraphModel, s: TraverseModel)
    ensures
        advance(g, s).1 matches Some(Err(e)) ==> e == Error::ProviderNotFound,
    decreases remaining(g.providers.len(), s.visited), s.to_visit.len(),
{
    if s.to_visit.len() > 0 {
        let p = s.to_visit[0];
        if s.visited.contains(p) {
            lemma_advance_error(g, s.pop());
        } else if g.has_provider(p) && !passes_filter(g.providers[p as int].kind(), s.types) {
            lemma_remaining_insert(g.providers.len(), s.visited, p);
            lemma_advance_error(g, s.pop().visit(g, p));
        }
    }
}

/// A traversal that starts from `providers`; see [`Traverse::new`].
pub fn traverse(providers: Vec<ProviderId>, types: Option<Vec<ProviderKind>>) -> (r: Traverse)
    ensures
        r@ == TraverseModel::start(providers@, types_view(types)),
{
    Traverse::new(providers, types)
}

} // verus!
