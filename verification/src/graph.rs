//! The graph that owns providers and containers. Each lives at an index that
//! is its identity; references among them are indices.

use crate::containers::ContainerModel;
use crate::containers::DynamicContainer;
use crate::containers::Registration;
use crate::containers::parent_key;
use crate::document::HostRef;
use crate::errors::Error;
use crate::providers::ContainerId;
use crate::providers::Injection;
use crate::providers::InjectionModel;
use crate::providers::Provider;
use crate::providers::ProviderId;
use crate::providers::ProviderKind;
use crate::providers::ProviderModel;
use crate::providers::ProviderVariant;
use crate::providers::VariantModel;
use crate::providers::injections_view;
use crate::providers::named_injections_view;
use crate::table::find;
use crate::table::lemma_find;
use crate::table::lemma_upsert;
use crate::table::view_of;
use vstd::prelude::*;

verus! {

/// The identities that a sequence of registrations names, in order.
pub open spec fn registered_ids(entries: Seq<(Seq<char>, Registration)>) -> Seq<ProviderId> {
    Seq::new(entries.len(), |i: int| entries[i].1.id)
}

/// The mathematical content of a [`Graph`].
pub struct GraphModel {
    pub providers: Seq<ProviderModel>,
    pub containers: Seq<ContainerModel>,
}

impl GraphModel {
    /// Every object sits at the index that is its identity, and is well formed.
    pub open spec fn wf(self) -> bool {
        &&& forall|i: int|
            0 <= i < self.providers.len() ==> (#[trigger] self.providers[i]).id == i
                && self.providers[i].wf()
        &&& forall|i: int|
            0 <= i < self.containers.len() ==> (#[trigger] self.containers[i]).id == i
                && self.containers[i].wf() && self.registers_own(self.containers[i].providers)
    }

    /// Whether `entry` names a provider of the graph, with the kind that the
    /// provider has.
    pub open spec fn registered(self, entry: Registration) -> bool {
        self.has_provider(entry.id) && self.providers[entry.id as int].kind() == entry.kind
    }

    /// Whether every entry of `entries` names a provider of the graph, with
    /// the kind that the provider has.
    pub open spec fn registers_own(self, entries: Seq<(Seq<char>, Registration)>) -> bool {
        forall|i: int| 0 <= i < entries.len() ==> self.registered((#[trigger] entries[i]).1)
    }

    /// Whether the graph has a provider with the identity `p`.
    pub open spec fn has_provider(self, p: ProviderId) -> bool {
        p < self.providers.len()
    }

    /// Whether the graph has a container with the identity `c`.
    pub open spec fn has_container(self, c: ContainerId) -> bool {
        c < self.containers.len()
    }

    /// The graph with one more provider, of the given variant, at the next index.
    pub open spec fn add_provider(self, variant: VariantModel) -> GraphModel {
        GraphModel {
            providers: self.providers.push(
                ProviderModel::fresh(self.providers.len() as ProviderId, variant),
            ),
            ..self
        }
    }

    /// The graph with one more container, empty, at the next index.
    pub open spec fn add_container(self, provider_type: ProviderKind) -> GraphModel {
        GraphModel {
            containers: self.containers.push(
                ContainerModel::fresh(self.containers.len() as ContainerId, provider_type),
            ),
            ..self
        }
    }

    /// The graph with the provider `p` in the place of the one at `p.id`.
    pub open spec fn with_provider(self, p: ProviderModel) -> GraphModel {
        GraphModel { providers: self.providers.update(p.id as int, p), ..self }
    }

    /// The graph with the container `c` in the place of the one at `c.id`.
    pub open spec fn with_container(self, c: ContainerModel) -> GraphModel {
        GraphModel { containers: self.containers.update(c.id as int, c), ..self }
    }

    /// The graph after `other` is put on the override stack of `p`; both must
    /// be providers of the graph.
    pub open spec fn override_provider(self, p: ProviderId, other: ProviderId) -> Result<
        GraphModel,
        Error,
    > {
        if !self.has_provider(p) || !self.has_provider(other) {
            Err(Error::ProviderNotFound)
        } else {
            match self.providers[p as int].override_with(other) {
                Ok(m) => Ok(self.with_provider(m)),
                Err(e) => Err(e),
            }
        }
    }

    /// The graph after the top of the override stack of `p` is taken off.
    pub open spec fn reset_last_overriding(self, p: ProviderId) -> Result<GraphModel, Error> {
        if !self.has_provider(p) {
            Err(Error::ProviderNotFound)
        } else {
            match self.providers[p as int].reset_last_overriding() {
                Ok(m) => Ok(self.with_provider(m)),
                Err(e) => Err(e),
            }
        }
    }

    /// The graph after the override stack of `p` is emptied.
    pub open spec fn reset_override(self, p: ProviderId) -> Result<GraphModel, Error> {
        if !self.has_provider(p) {
            Err(Error::ProviderNotFound)
        } else {
            Ok(self.with_provider(self.providers[p as int].reset_override()))
        }
    }

    /// The graph after `provides` is recorded as what `p` produces.
    pub open spec fn set_provides(self, p: ProviderId, provides: InjectionModel) -> Result<
        GraphModel,
        Error,
    > {
        if !self.has_provider(p) {
            Err(Error::ProviderNotFound)
        } else {
            Ok(self.with_provider(self.providers[p as int].set_provides(provides)))
        }
    }

    /// The graph after `args` are appended to the positional arguments of `p`.
    pub open spec fn add_args(self, p: ProviderId, args: Seq<InjectionModel>) -> Result<
        GraphModel,
        Error,
    > {
        if !self.has_provider(p) {
            Err(Error::ProviderNotFound)
        } else {
            Ok(self.with_provider(self.providers[p as int].add_args(args)))
        }
    }

    /// The graph after `kwargs` are appended to the keyword arguments of `p`.
    pub open spec fn add_kwargs(
        self,
        p: ProviderId,
        kwargs: Seq<(Seq<char>, InjectionModel)>,
    ) -> Result<GraphModel, Error> {
        if !self.has_provider(p) {
            Err(Error::ProviderNotFound)
        } else {
            Ok(self.with_provider(self.providers[p as int].add_kwargs(kwargs)))
        }
    }

    /// The graph after `p` is registered under `name` in `c`; see
    /// [`ContainerModel::set_provider`].
    pub open spec fn set_provider(self, c: ContainerId, name: Seq<char>, p: ProviderId) -> Result<
        GraphModel,
        Error,
    > {
        if !self.has_container(c) || !self.has_provider(p) {
            Err(Error::ProviderNotFound)
        } else {
            match self.containers[c as int].set_provider(name, p, self.providers[p as int].kind()) {
                Ok(m) => Ok(self.with_container(m)),
                Err(e) => Err(e),
            }
        }
    }

    /// The graph after the plain attribute `name` of `c` is set to `value`.
    pub open spec fn set_value(self, c: ContainerId, name: Seq<char>, value: HostRef) -> Result<
        GraphModel,
        Error,
    > {
        if !self.has_container(c) {
            Err(Error::ProviderNotFound)
        } else {
            Ok(self.with_container(self.containers[c as int].set_value(name, value)))
        }
    }

    /// The graph after `name` is recorded as the declarative definition of `c`.
    pub open spec fn set_declarative_parent(
        self,
        c: ContainerId,
        name: Option<Seq<char>>,
    ) -> Result<GraphModel, Error> {
        if !self.has_container(c) {
            Err(Error::ProviderNotFound)
        } else {
            Ok(
                self.with_container(
                    ContainerModel { declarative_parent: name, ..self.containers[c as int] },
                ),
            )
        }
    }

    /// The graph after `name` is removed from `c`.
    pub open spec fn del_attr(self, c: ContainerId, name: Seq<char>) -> Result<GraphModel, Error> {
        if !self.has_container(c) {
            Err(Error::ProviderNotFound)
        } else {
            Ok(self.with_container(self.containers[c as int].del_attr(name)))
        }
    }

    /// The graph after `parent` is made the parent of `c`; both must be
    /// containers of the graph.
    pub open spec fn assign_parent(self, c: ContainerId, parent: ContainerId) -> Result<
        GraphModel,
        Error,
    > {
        if !self.has_container(c) || !self.has_container(parent) {
            Err(Error::ProviderNotFound)
        } else {
            Ok(self.with_container(self.containers[c as int].assign_parent(parent)))
        }
    }

    /// The graph after `other` is put on the override stack of `c`; both must
    /// be containers of the graph.
    pub open spec fn override_container(self, c: ContainerId, other: ContainerId) -> Result<
        GraphModel,
        Error,
    > {
        if !self.has_container(c) || !self.has_container(other) {
            Err(Error::ProviderNotFound)
        } else {
            match self.containers[c as int].override_with(other) {
                Ok(m) => Ok(self.with_container(m)),
                Err(e) => Err(e),
            }
        }
    }

    /// The graph after the top of the override stack of `c` is taken off.
    pub open spec fn reset_last_overriding_container(self, c: ContainerId) -> Result<
        GraphModel,
        Error,
    > {
        if !self.has_container(c) {
            Err(Error::ProviderNotFound)
        } else {
            match self.containers[c as int].reset_last_overriding() {
                Ok(m) => Ok(self.with_container(m)),
                Err(e) => Err(e),
            }
        }
    }

    /// The graph after the override stack of `c` is emptied.
    pub open spec fn reset_override_container(self, c: ContainerId) -> Result<GraphModel, Error> {
        if !self.has_container(c) {
            Err(Error::ProviderNotFound)
        } else {
            Ok(self.with_container(self.containers[c as int].reset_override()))
        }
    }

    /// The container that the provider `p` wraps, where `p` is a container provider.
    pub open spec fn wrapped(self, p: ProviderId) -> Option<ContainerId> {
        if self.has_provider(p) {
            match self.providers[p as int].variant {
                VariantModel::Container(c) => Some(c.container),
                _ => None,
            }
        } else {
            None
        }
    }

    /// The providers registered in the container that the provider `p` wraps,
    /// where `p` is a container provider.
    pub open spec fn nested(self, p: ProviderId) -> Seq<ProviderId> {
        match self.providers[p as int].variant {
            VariantModel::Container(c) => if self.has_container(c.container) {
                registered_ids(self.containers[c.container as int].providers)
            } else {
                Seq::empty()
            },
            _ => Seq::empty(),
        }
    }

    /// The related providers of `p`: the members of the container that it
    /// wraps, then the providers that it refers to by itself.
    pub open spec fn related(self, p: ProviderId) -> Seq<ProviderId> {
        self.nested(p) + self.providers[p as int].referenced()
    }

    /// The container that is reached from `c` after `steps` parent links,
    /// where the links lead that far.
    pub open spec fn ancestor(self, c: ContainerId, steps: nat) -> Option<ContainerId>
        decreases steps,
    {
        if !self.has_container(c) {
            None
        } else if steps == 0 {
            Some(c)
        } else {
            match self.containers[c as int].parent {
                Some(p) => self.ancestor(p, (steps - 1) as nat),
                None => None,
            }
        }
    }

    /// Whether the parent links from `c` pass some container twice.
    pub open spec fn parent_cycle(self, c: ContainerId) -> bool {
        exists|i: nat, j: nat|
            i < j && (#[trigger] self.ancestor(c, i)) is Some && self.ancestor(c, i)
                == #[trigger] self.ancestor(c, j)
    }

    /// The parent name of `c`, found in at most `budget` steps along the
    /// parent links: the name of the declarative definition of the first
    /// container on the way that has no parent.
    pub open spec fn parent_name_within(self, c: ContainerId, budget: nat) -> Result<
        Option<Seq<char>>,
        Error,
    >
        decreases budget,
    {
        if !self.has_container(c) {
            Err(Error::ProviderNotFound)
        } else if budget == 0 {
            Err(Error::CyclicParentError)
        } else {
            match self.containers[c as int].parent {
                Some(p) => self.parent_name_within(p, (budget - 1) as nat),
                None => Ok(self.containers[c as int].declarative_parent),
            }
        }
    }

    /// The parent name of `c`. A walk along the parent links that has not
    /// ended after as many steps as there are containers has passed one of
    /// them twice.
    pub open spec fn parent_name(self, c: ContainerId) -> Result<Option<Seq<char>>, Error> {
        self.parent_name_within(c, self.containers.len())
    }
}

/// Owner of the providers and containers of one object graph.
#[derive(Debug)]
pub struct Graph {
    providers: Vec<Provider>,
    containers: Vec<DynamicContainer>,
}

impl View for Graph {
    type V = GraphModel;

    closed spec fn view(&self) -> GraphModel {
        GraphModel {
            providers: Seq::new(self.providers@.len(), |i: int| self.providers@[i]@),
            containers: Seq::new(self.containers@.len(), |i: int| self.containers@[i]@),
        }
    }
}

impl Graph {
    /// The graph is well formed as a model, and so is each stored provider.
    pub closed spec fn wf(&self) -> bool {
        &&& self@.wf()
        &&& forall|i: int| 0 <= i < self.providers@.len() ==> (#[trigger] self.providers@[i]).wf()
    }

    /// The content of a well-formed graph is well formed.
    pub proof fn lemma_model_wf(&self)
        requires
            self.wf(),
        ensures
            self@.wf(),
    {
    }

    /// A graph without providers and containers.
    pub fn new() -> (r: Self)
        ensures
            r.wf(),
            r@.providers.len() == 0,
            r@.containers.len() == 0,
    {
        Graph { providers: Vec::new(), containers: Vec::new() }
    }

    /// How many providers the graph has.
    pub fn provider_count(&self) -> (r: usize)
        ensures
            r == self@.providers.len(),
    {
        self.providers.len()
    }

    /// How many containers the graph has.
    pub fn container_count(&self) -> (r: usize)
        ensures
            r == self@.containers.len(),
    {
        self.containers.len()
    }

    /// The provider with the identity `p`, if the graph has it.
    pub fn provider(&self, p: ProviderId) -> (r: Option<&Provider>)
        requires
            self.wf(),
        ensures
            match r {
                Some(found) => self@.has_provider(p) && found@ == self@.providers[p as int]
                    && found.wf(),
                None => !self@.has_provider(p),
            },
    {
        if p < self.providers.len() {
            Some(&self.providers[p])
        } else {
            None
        }
    }

    /// The container with the identity `c`, if the graph has it.
    pub fn container(&self, c: ContainerId) -> (r: Option<&DynamicContainer>)
        requires
            self.wf(),
        ensures
            match r {
                Some(found) => self@.has_container(c) && found@ == self@.containers[c as int]
                    && found.wf(),
                None => !self@.has_container(c),
            },
    {
        if c < self.containers.len() {
            Some(&self.containers[c])
        } else {
            None
        }
    }

    /// Adds a provider of the given variant and returns its identity.
    pub fn add_provider(&mut self, variant: ProviderVariant) -> (p: ProviderId)
        requires
            old(self).wf(),
        ensures
            final(self).wf(),
            p == old(self)@.providers.len(),
            final(self)@ == old(self)@.add_provider(variant@),
    {
        let p = self.providers.len();
        let provider = Provider::with_variant(p, variant);
        self.providers.push(provider);
        proof {
            assert(self@.providers =~= old(self)@.add_provider(variant@).providers);
            assert(self@.containers =~= old(self)@.containers);
        }
        p
    }

    /// Adds an empty container that accepts the providers which satisfy
    /// `provider_type`, and returns its identity.
    pub fn add_container(&mut self, provider_type: ProviderKind) -> (c: ContainerId)
        requires
            old(self).wf(),
        ensures
            final(self).wf(),
            c == old(self)@.containers.len(),
            final(self)@ == old(self)@.add_container(provider_type),
    {
        let c = self.containers.len();
        let container = DynamicContainer::with_provider_type(c, provider_type);
        self.containers.push(container);
        proof {
            assert(self@.containers =~= old(self)@.add_container(provider_type).containers);
            assert(self@.providers =~= old(self)@.providers);
        }
        c
    }

    /// Puts `other` on top of the override stack of `p`.
    pub fn override_provider(&mut self, p: ProviderId, other: ProviderId) -> (r: Result<(), Error>)
        requires
            old(self).wf(),
        ensures
            final(self).wf(),
            match old(self)@.override_provider(p, other) {
                Ok(m) => r is Ok && final(self)@ == m,
                Err(e) => r == Err::<(), Error>(e) && final(self)@ == old(self)@,
            },
    {
        if p >= self.providers.len() || other >= self.providers.len() {
            return Err(Error::ProviderNotFound);
        }
        let r = self.providers[p].override_with(other);
        proof {
            self.lemma_provider_replaced(old(self), p);
        }
        r
    }

    /// Takes the most recent override off the stack of `p`.
    pub fn reset_last_overriding(&mut self, p: ProviderId) -> (r: Result<(), Error>)
        requires
            old(self).wf(),
        ensures
            final(self).wf(),
            match old(self)@.reset_last_overriding(p) {
                Ok(m) => r is Ok && final(self)@ == m,
                Err(e) => r == Err::<(), Error>(e) && final(self)@ == old(self)@,
            },
    {
        if p >= self.providers.len() {
            return Err(Error::ProviderNotFound);
        }
        let r = self.providers[p].reset_last_overriding();
        proof {
            self.lemma_provider_replaced(old(self), p);
        }
        r
    }

    /// Empties the override stack of `p`.
    pub fn reset_override(&mut self, p: ProviderId) -> (r: Result<(), Error>)
        requires
            old(self).wf(),
        ensures
            final(self).wf(),
            match old(self)@.reset_override(p) {
                Ok(m) => r is Ok && final(self)@ == m,
                Err(e) => r == Err::<(), Error>(e) && final(self)@ == old(self)@,
            },
    {
        if p >= self.providers.len() {
            return Err(Error::ProviderNotFound);
        }
        self.providers[p].reset_override();
        proof {
            self.lemma_provider_replaced(old(self), p);
        }
        Ok(())
    }

    /// Records what the provider `p` produces.
    pub fn set_provides(&mut self, p: ProviderId, provides: Injection) -> (r: Result<(), Error>)
        requires
            old(self).wf(),
        ensures
            final(self).wf(),
            match old(self)@.set_provides(p, provides@) {
                Ok(m) => r is Ok && final(self)@ == m,
                Err(e) => r == Err::<(), Error>(e) && final(self)@ == old(self)@,
            },
    {
        if p >= self.providers.len() {
            return Err(Error::ProviderNotFound);
        }
        self.providers[p].set_provides(provides);
        proof {
            self.lemma_provider_replaced(old(self), p);
        }
        Ok(())
    }

    /// Appends positional construction arguments to the provider `p`.
    pub fn add_args(&mut self, p: ProviderId, args: Vec<Injection>) -> (r: Result<(), Error>)
        requires
            old(self).wf(),
        ensures
            final(self).wf(),
            match old(self)@.add_args(p, injections_view(args@)) {
                Ok(m) => r is Ok && final(self)@ == m,
                Err(e) => r == Err::<(), Error>(e) && final(self)@ == old(self)@,
            },
    {
        if p >= self.providers.len() {
            return Err(Error::ProviderNotFound);
        }
        self.providers[p].add_args(args);
        proof {
            self.lemma_provider_replaced(old(self), p);
        }
        Ok(())
    }

    /// Appends keyword construction arguments to the provider `p`.
    pub fn add_kwargs(&mut self, p: ProviderId, kwargs: Vec<(String, Injection)>) -> (r: Result<
        (),
        Error,
    >)
        requires
            old(self).wf(),
        ensures
            final(self).wf(),
            match old(self)@.add_kwargs(p, named_injections_view(kwargs@)) {
                Ok(m) => r is Ok && final(self)@ == m,
                Err(e) => r == Err::<(), Error>(e) && final(self)@ == old(self)@,
            },
    {
        if p >= self.providers.len() {
            return Err(Error::ProviderNotFound);
        }
        self.providers[p].add_kwargs(kwargs);
        proof {
            self.lemma_provider_replaced(old(self), p);
        }
        Ok(())
    }

    /// Registers the provider `p` under `name` in the container `c`.
    pub fn set_provider(&mut self, c: ContainerId, name: String, p: ProviderId) -> (r: Result<
        (),
        Error,
    >)
        requires
            old(self).wf(),
        ensures
            final(self).wf(),
            match old(self)@.set_provider(c, name@, p) {
                Ok(m) => r is Ok && final(self)@ == m,
                Err(e) => r == Err::<(), Error>(e) && final(self)@ == old(self)@,
            },
    {
        if c >= self.containers.len() || p >= self.providers.len() {
            return Err(Error::ProviderNotFound);
        }
        let r = self.containers[c].set_provider(name, &self.providers[p]);
        proof {
            let before = old(self)@.containers[c as int].providers;
            let after = self.containers@[c as int]@.providers;
            lemma_find(before, name@);
            assert forall|i: int| 0 <= i < after.len() implies old(self)@.registered(
                (#[trigger] after[i]).1,
            ) by {
                if after != before && i != find(before, name@) {
                    assert(after[i] == before[i]);
                }
            }
            self.lemma_container_replaced(old(self), c);
        }
        r
    }

    /// Registers each provider of `providers` under its name in the container
    /// `c`, in order, and stops at the first that is refused. Where none is
    /// refused, `c` registers a provider under each of the names, but for
    /// the name `parent`.
    pub fn set_providers(&mut self, c: ContainerId, providers: Vec<(String, ProviderId)>) -> (r:
        Result<(), Error>)
        requires
            old(self).wf(),
        ensures
            final(self).wf(),
            (final(self)@, r) == set_all(old(self)@, c, view_of(providers@), 0),
            r is Ok ==> forall|k: int|
                0 <= k < providers.len() && (#[trigger] view_of(providers@)[k]).0 != parent_key()
                    ==> final(self)@.has_container(c) && final(self)@.containers[c as int].provider(
                    view_of(providers@)[k].0,
                ) is Some,
    {
        let ghost items = view_of(providers@);
        let ghost start = self@;
        let mut i: usize = 0;
        while i < providers.len()
            invariant
                self.wf(),
                i <= providers.len(),
                items == view_of(providers@),
                start == old(self)@,
                set_all(start, c, items, 0) == set_all(self@, c, items, i as int),
                forall|k: int|
                    0 <= k < i && (#[trigger] items[k]).0 != parent_key() ==> self@.has_container(c)
                        && self@.containers[c as int].provider(items[k].0) is Some,
            decreases providers.len() - i,
        {
            let name = providers[i].0.clone();
            let p = providers[i].1;
            assert(items[i as int] == (name@, p));
            let ghost before = self@;
            proof {
                self.lemma_model_wf();
            }
            match self.set_provider(c, name, p) {
                Err(e) => {
                    return Err(e);
                },
                Ok(()) => {},
            }
            proof {
                let held = before.containers[c as int];
                let entry = Registration { id: p, kind: before.providers[p as int].kind() };
                lemma_upsert(held.providers, name@, entry);
                assert(self@.containers[c as int] == held.set_provider(name@, p, entry.kind)->Ok_0);
                assert forall|k: int|
                    0 <= k < i + 1 && (#[trigger] items[k]).0
                        != parent_key() implies self@.has_container(c)
                    && self@.containers[c as int].provider(items[k].0) is Some by {
                    if k < i {
                        assert(held.provider(items[k].0) is Some);
                    }
                }
            }
            i += 1;
        }
        Ok(())
    }

    /// Sets the attribute `name` of the container `c` to a value that is not a provider.
    pub fn set_value(&mut self, c: ContainerId, name: String, value: HostRef) -> (r: Result<
        (),
        Error,
    >)
        requires
            old(self).wf(),
        ensures
            final(self).wf(),
            match old(self)@.set_value(c, name@, value) {
                Ok(m) => r is Ok && final(self)@ == m,
                Err(e) => r == Err::<(), Error>(e) && final(self)@ == old(self)@,
            },
    {
        if c >= self.containers.len() {
            return Err(Error::ProviderNotFound);
        }
        self.containers[c].set_value(name, value);
        proof {
            self.lemma_container_replaced(old(self), c);
        }
        Ok(())
    }

    /// Removes `name` from the container `c`.
    pub fn del_attr(&mut self, c: ContainerId, name: &str) -> (r: Result<(), Error>)
        requires
            old(self).wf(),
        ensures
            final(self).wf(),
            match old(self)@.del_attr(c, name@) {
                Ok(m) => r is Ok && final(self)@ == m,
                Err(e) => r == Err::<(), Error>(e) && final(self)@ == old(self)@,
            },
    {
        if c >= self.containers.len() {
            return Err(Error::ProviderNotFound);
        }
        self.containers[c].del_attr(name);
        proof {
            let before = old(self)@.containers[c as int].providers;
            let after = self.containers@[c as int]@.providers;
            lemma_find(before, name@);
            assert forall|i: int| 0 <= i < after.len() implies old(self)@.registered(
                (#[trigger] after[i]).1,
            ) by {
                if after != before {
                    if i < find(before, name@) {
                        assert(after[i] == before[i]);
                    } else {
                        assert(after[i] == before[i + 1]);
                    }
                }
            }
            self.lemma_container_replaced(old(self), c);
        }
        Ok(())
    }

    /// Makes `parent` the parent of the container `c`, in the place of what
    /// it had. Nothing keeps the parent links from forming a cycle.
    pub fn assign_parent(&mut self, c: ContainerId, parent: ContainerId) -> (r: Result<(), Error>)
        requires
            old(self).wf(),
        ensures
            final(self).wf(),
            match old(self)@.assign_parent(c, parent) {
                Ok(m) => r is Ok && final(self)@ == m,
                Err(e) => r == Err::<(), Error>(e) && final(self)@ == old(self)@,
            },
    {
        if c >= self.containers.len() || parent >= self.containers.len() {
            return Err(Error::ProviderNotFound);
        }
        self.containers[c].assign_parent(parent);
        proof {
            self.lemma_container_replaced(old(self), c);
        }
        Ok(())
    }

    /// Puts `other` on top of the override stack of the container `c`.
    pub fn override_container(&mut self, c: ContainerId, other: ContainerId) -> (r: Result<
        (),
        Error,
    >)
        requires
            old(self).wf(),
        ensures
            final(self).wf(),
            match old(self)@.override_container(c, other) {
                Ok(m) => r is Ok && final(self)@ == m,
                Err(e) => r == Err::<(), Error>(e) && final(self)@ == old(self)@,
            },
    {
        if c >= self.containers.len() || other >= self.containers.len() {
            return Err(Error::ProviderNotFound);
        }
        let r = self.containers[c].override_with(other);
        proof {
            self.lemma_container_replaced(old(self), c);
        }
        r
    }

    /// Takes the most recent override off the stack of the container `c`.
    pub fn reset_last_overriding_container(&mut self, c: ContainerId) -> (r: Result<(), Error>)
        requires
            old(self).wf(),
        ensures
            final(self).wf(),
            match old(self)@.reset_last_overriding_container(c) {
                Ok(m) => r is Ok && final(self)@ == m,
                Err(e) => r == Err::<(), Error>(e) && final(self)@ == old(self)@,
            },
    {
        if c >= self.containers.len() {
            return Err(Error::ProviderNotFound);
        }
        let r = self.containers[c].reset_last_overriding();
        proof {
            self.lemma_container_replaced(old(self), c);
        }
        r
    }

    /// Empties the override stack of the container `c`.
    pub fn reset_override_container(&mut self, c: ContainerId) -> (r: Result<(), Error>)
        requires
            old(self).wf(),
        ensures
            final(self).wf(),
            match old(self)@.reset_override_container(c) {
                Ok(m) => r is Ok && final(self)@ == m,
                Err(e) => r == Err::<(), Error>(e) && final(self)@ == old(self)@,
            },
    {
        if c >= self.containers.len() {
            return Err(Error::ProviderNotFound);
        }
        self.containers[c].reset_override();
        proof {
            self.lemma_container_replaced(old(self), c);
        }
        Ok(())
    }

    /// The container that the provider `p` wraps, where `p` is a container provider.
    pub fn wrapped(&self, p: ProviderId) -> (r: Option<ContainerId>)
        requires
            self.wf(),
        ensures
            r == self@.wrapped(p),
    {
        if p < self.providers.len() {
            match self.providers[p].variant() {
                ProviderVariant::Container(c) => Some(c.container),
                _ => None,
            }
        } else {
            None
        }
    }

    /// The related providers of `p`, in the order in which a traversal visits them.
    pub fn related(&self, p: ProviderId) -> (r: Result<Vec<ProviderId>, Error>)
        requires
            self.wf(),
        ensures
            match r {
                Ok(found) => self@.has_provider(p) && found@ == self@.related(p),
                Err(e) => !self@.has_provider(p) && e == Error::ProviderNotFound,
            },
    {
        if p >= self.providers.len() {
            return Err(Error::ProviderNotFound);
        }
        let provider = &self.providers[p];
        let mut out: Vec<ProviderId> = Vec::new();
        match provider.variant() {
            ProviderVariant::Container(wrapped) => {
                if wrapped.container < self.containers.len() {
                    let entries = self.containers[wrapped.container].providers();
                    let mut i: usize = 0;
                    while i < entries.len()
                        invariant
                            i <= entries.len(),
                            out@ == registered_ids(view_of(entries@)).take(i as int),
                        decreases entries.len() - i,
                    {
                        out.push(entries[i].1.id);
                        i += 1;
                        assert(out@ =~= registered_ids(view_of(entries@)).take(i as int));
                    }
                    proof {
                        let ids = registered_ids(view_of(entries@));
                        assert(ids.take(ids.len() as int) =~= ids);
                    }
                }
            },
            _ => {},
        }
        assert(out@ =~= self@.nested(p));
        let mut own = provider.referenced();
        out.append(&mut own);
        Ok(out)
    }

    /// Records the name of the declarative definition that the container `c`
    /// was made from, or that it was made from none.
    pub fn set_declarative_parent(&mut self, c: ContainerId, name: Option<String>) -> (r: Result<
        (),
        Error,
    >)
        requires
            old(self).wf(),
        ensures
            final(self).wf(),
            match old(self)@.set_declarative_parent(
                c,
                match name {
                    Some(n) => Some(n@),
                    None => None,
                },
            ) {
                Ok(m) => r is Ok && final(self)@ == m,
                Err(e) => r == Err::<(), Error>(e) && final(self)@ == old(self)@,
            },
    {
        if c >= self.containers.len() {
            return Err(Error::ProviderNotFound);
        }
        self.containers[c].set_declarative_parent(name);
        proof {
            self.lemma_container_replaced(old(self), c);
        }
        Ok(())
    }

    /// The parent name of the container `c`: the name of the declarative
    /// definition at the end of its parent links.
    pub fn parent_name(&self, c: ContainerId) -> (r: Result<Option<String>, Error>)
        requires
            self.wf(),
        ensures
            match r {
                Ok(Some(name)) => self@.parent_name(c) == Ok::<Option<Seq<char>>, Error>(
                    Some(name@),
                ),
                Ok(None) => self@.parent_name(c) == Ok::<Option<Seq<char>>, Error>(None),
                Err(e) => self@.parent_name(c) == Err::<Option<Seq<char>>, Error>(e),
            },
            r == Err::<Option<String>, Error>(Error::CyclicParentError) <==> self@.parent_cycle(c),
    {
        proof {
            crate::laws::law_parent_cycle_is_reported(self@, c);
        }
        let mut budget: usize = self.containers.len();
        let mut current: ContainerId = c;
        loop
            invariant
                self.wf(),
                budget <= self.containers.len(),
                self@.parent_name(c) == self@.parent_name_within(current, budget as nat),
                self@.parent_name(c) == Err::<Option<Seq<char>>, Error>(Error::CyclicParentError)
                    <==> self@.parent_cycle(c),
            decreases budget,
        {
            if current >= self.containers.len() {
                return Err(Error::ProviderNotFound);
            }
            if budget == 0 {
                return Err(Error::CyclicParentError);
            }
            match self.containers[current].parent() {
                Some(p) => {
                    current = p;
                    budget -= 1;
                },
                None => {
                    return match self.containers[current].declarative_parent() {
                        Some(name) => Ok(Some(name.clone())),
                        None => Ok(None),
                    };
                },
            }
        }
    }

    /// Replacing one provider by one of the same identity and kind keeps the
    /// graph well formed and changes its content at that provider only.
    proof fn lemma_provider_replaced(&self, before: &Graph, p: ProviderId)
        requires
            before.wf(),
            p < before.providers@.len(),
            self.providers@.len() == before.providers@.len(),
            self.containers@ == before.containers@,
            forall|i: int|
                0 <= i < before.providers@.len() && i != p ==> self.providers@[i]
                    == before.providers@[i],
            self.providers@[p as int].wf(),
            self.providers@[p as int]@.wf(),
            self.providers@[p as int]@.id == p,
            self.providers@[p as int]@.kind() == before.providers@[p as int]@.kind(),
        ensures
            self.wf(),
            self@ == before@.with_provider(self.providers@[p as int]@),
            self.providers@[p as int]@ == before.providers@[p as int]@ ==> self@ == before@,
    {
        assert(self@.providers =~= before@.with_provider(self.providers@[p as int]@).providers);
        assert(self@.containers =~= before@.containers);
        if self.providers@[p as int]@ == before.providers@[p as int]@ {
            assert(self@.providers =~= before@.providers);
        }
    }

    /// Replacing one container by one of the same identity whose registrations
    /// are providers of the graph keeps the graph well formed and changes its
    /// content at that container only.
    proof fn lemma_container_replaced(&self, before: &Graph, c: ContainerId)
        requires
            before.wf(),
            c < before.containers@.len(),
            self.containers@.len() == before.containers@.len(),
            self.providers@ == before.providers@,
            forall|i: int|
                0 <= i < before.containers@.len() && i != c ==> self.containers@[i]
                    == before.containers@[i],
            self.containers@[c as int]@.wf(),
            self.containers@[c as int]@.id == c,
            before@.registers_own(self.containers@[c as int]@.providers),
        ensures
            self.wf(),
            self@ == before@.with_container(self.containers@[c as int]@),
            self.containers@[c as int]@ == before.containers@[c as int]@ ==> self@ == before@,
    {
        assert(self@.containers =~= before@.with_container(
            self.containers@[c as int]@,
        ).containers);
        assert(self@.providers =~= before@.providers);
        if self.containers@[c as int]@ == before.containers@[c as int]@ {
            assert(self@.containers =~= before@.containers);
        }
    }
}

/// Registering the entries of `items` from index `i` on in the container `c`,
/// in order, up to the first that is refused: the graph that results, and how
/// it ended.
pub open spec fn set_all(
    g: GraphModel,
    c: ContainerId,
    items: Seq<(Seq<char>, ProviderId)>,
    i: int,
) -> (GraphModel, Result<(), Error>)
    decreases items.len() - i,
{
    if i < 0 || i >= items.len() {
        (g, Ok(()))
    } else {
        match g.set_provider(c, items[i].0, items[i].1) {
            Ok(next) => set_all(next, c, items, i + 1),
            Err(e) => (g, Err(e)),
        }
    }
}

/// Whether every provider of `before` wraps in `after` what it wrapped.
pub open spec fn wraps_kept(before: GraphModel, after: GraphModel) -> bool {
    forall|p: ProviderId| before.has_provider(p) ==> #[trigger] after.wrapped(p) == before.wrapped(p)
}

/// Whether `after` has every container of `before` as it was, and every
/// provider of `before` with what it wrapped.
pub open spec fn kept(before: GraphModel, after: GraphModel) -> bool {
    &&& before.providers.len() <= after.providers.len()
    &&& before.containers.len() <= after.containers.len()
    &&& forall|c: int|
        0 <= c < before.containers.len() ==> #[trigger] after.containers[c]
            == before.containers[c]
    &&& wraps_kept(before, after)
}

/// What is kept once and kept again is kept.
pub proof fn lemma_kept_further(a: GraphModel, b: GraphModel, c: GraphModel)
    requires
        kept(a, b),
        kept(b, c),
    ensures
        kept(a, c),
{
    assert forall|k: int| 0 <= k < a.containers.len() implies #[trigger] c.containers[k]
        == a.containers[k] by {
        assert(b.containers[k] == a.containers[k]);
    }
    assert forall|p: ProviderId| a.has_provider(p) implies #[trigger] c.wrapped(p) == a.wrapped(
        p,
    ) by {
        assert(b.wrapped(p) == a.wrapped(p));
    }
}

/// Whether `after` has grown out of `before` by work on the container
/// `target`: nothing is gone, every other container that `before` has is as
/// it was, every name that `target` registered is still registered, and
/// every provider of `before` wraps what it wrapped.
pub open spec fn grown(before: GraphModel, after: GraphModel, target: ContainerId) -> bool {
    &&& before.providers.len() <= after.providers.len()
    &&& before.containers.len() <= after.containers.len()
    &&& wraps_kept(before, after)
    &&& forall|c: int|
        0 <= c < before.containers.len() && c != target ==> #[trigger] after.containers[c]
            == before.containers[c]
    &&& before.has_container(target) ==> forall|n: Seq<char>|
        (#[trigger] before.containers[target as int].provider(n)) is Some
            ==> after.containers[target as int].provider(n) is Some
}

/// Growth by work on one container goes on through further such work.
pub proof fn lemma_grown_further(a: GraphModel, b: GraphModel, c: GraphModel, target: ContainerId)
    requires
        grown(a, b, target),
        grown(b, c, target),
    ensures
        grown(a, c, target),
{
    assert forall|k: int| 0 <= k < a.containers.len() && k != target implies #[trigger] c.containers[k]
        == a.containers[k] by {
        assert(b.containers[k] == a.containers[k]);
    }
    if a.has_container(target) {
        assert forall|n: Seq<char>|
            (#[trigger] a.containers[target as int].provider(n)) is Some implies c.containers[target as int].provider(
            n,
        ) is Some by {
            assert(b.containers[target as int].provider(n) is Some);
        }
    }
    assert forall|p: ProviderId| a.has_provider(p) implies #[trigger] c.wrapped(p) == a.wrapped(
        p,
    ) by {
        assert(b.wrapped(p) == a.wrapped(p));
    }
}

} // verus!
