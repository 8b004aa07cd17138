//! Containers: named registries of providers, with a constraint on the kind of
//! provider that they accept.

use crate::document::HostRef;
use crate::errors::Error;
use crate::providers::ContainerId;
use crate::providers::Provider;
use crate::providers::ProviderId;
use crate::providers::ProviderKind;
use crate::table::distinct;
use crate::table::find;
use crate::table::lemma_find;
use crate::table::lemma_remove;
use crate::table::lemma_upsert;
use crate::table::lemma_view_of_keys;
use crate::table::lookup;
use crate::table::position;
use crate::table::put;
use crate::table::remove;
use crate::table::take_out;
use crate::table::upsert;
use crate::table::view_of;
use crate::text::views;
use vstd::prelude::*;

verus! {

/// What the wiring subsystem of the embedding runtime reads from a container.
#[derive(Clone, Debug, PartialEq, Eq)]
pub struct WiringConfiguration {
    pub modules: Vec<String>,
    pub packages: Vec<String>,
    pub from_package: Option<String>,
    pub auto_wire: bool,
}

/// The mathematical content of a [`WiringConfiguration`].
pub struct WiringModel {
    pub modules: Seq<Seq<char>>,
    pub packages: Seq<Seq<char>>,
    pub from_package: Option<Seq<char>>,
    pub auto_wire: bool,
}

impl WiringModel {
    /// No modules, no packages, no base package, and wiring switched on.
    pub open spec fn initial() -> WiringModel {
        WiringModel {
            modules: Seq::empty(),
            packages: Seq::empty(),
            from_package: None,
            auto_wire: true,
        }
    }
}

impl View for WiringConfiguration {
    type V = WiringModel;

    open spec fn view(&self) -> WiringModel {
        WiringModel {
            modules: views(self.modules@),
            packages: views(self.packages@),
            from_package: match self.from_package {
                Some(p) => Some(p@),
                None => None,
            },
            auto_wire: self.auto_wire,
        }
    }
}

impl WiringConfiguration {
    /// A configuration with the given parts; a list that is not given is empty.
    pub fn new(
        modules: Option<Vec<String>>,
        packages: Option<Vec<String>>,
        from_package: Option<String>,
        auto_wire: bool,
    ) -> (r: Self)
        ensures
            r@ == (WiringModel {
                modules: match modules {
                    Some(m) => views(m@),
                    None => Seq::empty(),
                },
                packages: match packages {
                    Some(p) => views(p@),
                    None => Seq::empty(),
                },
                from_package: match from_package {
                    Some(p) => Some(p@),
                    None => None,
                },
                auto_wire,
            }),
    {
        let modules = match modules {
            Some(m) => m,
            None => Vec::new(),
        };
        let packages = match packages {
            Some(p) => p,
            None => Vec::new(),
        };
        let r = WiringConfiguration { modules, packages, from_package, auto_wire };
        proof {
            assert(views(Seq::<String>::empty()) =~= Seq::empty());
        }
        r
    }
}

impl Default for WiringConfiguration {
    /// No modules, no packages, no base package, and wiring switched on.
    fn default() -> (r: Self)
        ensures
            r@ == WiringModel::initial(),
    {
        let r = WiringConfiguration {
            modules: Vec::new(),
            packages: Vec::new(),
            from_package: None,
            auto_wire: true,
        };
        proof {
            assert(r@.modules =~= Seq::empty());
            assert(r@.packages =~= Seq::empty());
        }
        r
    }
}

/// The base of every container: a bag of named attributes.
#[derive(Debug)]
pub struct Container {
    attributes: Vec<(String, HostRef)>,
}

impl View for Container {
    type V = Seq<(Seq<char>, HostRef)>;

    closed spec fn view(&self) -> Seq<(Seq<char>, HostRef)> {
        view_of(self.attributes@)
    }
}

impl Container {
    /// A container without attributes.
    pub fn new() -> (r: Self)
        ensures
            r@ == Seq::<(Seq<char>, HostRef)>::empty(),
    {
        let r = Container { attributes: Vec::new() };
        assert(r@ =~= Seq::empty());
        r
    }

    /// The value of the attribute `name`, if it is set.
    pub fn get_attr(&self, name: &str) -> (r: Option<HostRef>)
        ensures
            r == lookup(self@, name@),
    {
        proof {
            lemma_view_of_keys(self.attributes@);
        }
        let i = position(&self.attributes, name);
        if i < self.attributes.len() {
            Some(self.attributes[i].1)
        } else {
            None
        }
    }

    /// Sets the attribute `name` to `value`.
    pub fn set_attr(&mut self, name: String, value: HostRef)
        ensures
            final(self)@ == upsert(old(self)@, name@, value),
    {
        put(&mut self.attributes, name, value);
    }

    /// Removes the attribute `name`; an attribute that is not set is left alone.
    pub fn del_attr(&mut self, name: &str)
        ensures
            final(self)@ == remove(old(self)@, name@),
    {
        take_out(&mut self.attributes, name);
    }
}

/// What a container remembers of a provider that it registered: the
/// provider's identity and its kind.
#[derive(Clone, Copy, Debug, PartialEq, Eq)]
pub struct Registration {
    pub id: ProviderId,
    pub kind: ProviderKind,
}

/// The entries of `entries` whose provider is a dependency, in order.
pub open spec fn dependency_entries(entries: Seq<(Seq<char>, Registration)>) -> Seq<
    (Seq<char>, Registration),
>
    decreases entries.len(),
{
    if entries.len() == 0 {
        Seq::empty()
    } else if entries.last().1.kind.is_dependency() {
        dependency_entries(entries.drop_last()).push(entries.last())
    } else {
        dependency_entries(entries.drop_last())
    }
}

/// Index of the first entry that registers the provider `id`, or the number of entries.
pub open spec fn position_of_id(entries: Seq<(Seq<char>, Registration)>, id: ProviderId) -> int
    decreases entries.len(),
{
    if entries.len() == 0 {
        0
    } else if entries[0].1.id == id {
        0
    } else {
        1 + position_of_id(entries.drop_first(), id)
    }
}

/// What `position_of_id` returns: the first index that registers the provider.
pub proof fn lemma_position_of_id(entries: Seq<(Seq<char>, Registration)>, id: ProviderId)
    ensures
        0 <= position_of_id(entries, id) <= entries.len(),
        position_of_id(entries, id) < entries.len() ==> entries[position_of_id(
            entries,
            id,
        )].1.id == id,
        forall|j: int| 0 <= j < position_of_id(entries, id) ==> entries[j].1.id != id,
    decreases entries.len(),
{
    if entries.len() > 0 && entries[0].1.id != id {
        let rest = entries.drop_first();
        lemma_position_of_id(rest, id);
        assert forall|j: int| 0 <= j < position_of_id(entries, id) implies entries[j].1.id
            != id by {
            if j > 0 {
                assert(rest[j - 1] == entries[j]);
            }
        }
    }
}

/// The mathematical content of a [`DynamicContainer`].
pub struct ContainerModel {
    pub id: ContainerId,
    /// The kind that every registered provider satisfies.
    pub provider_type: ProviderKind,
    /// The registered providers by name, in the order in which the names came.
    pub providers: Seq<(Seq<char>, Registration)>,
    /// The attributes that are not providers.
    pub attributes: Seq<(Seq<char>, HostRef)>,
    /// The overriding containers, most recent last.
    pub overridden: Seq<ContainerId>,
    pub parent: Option<ContainerId>,
    /// The name of the declarative definition that the container was made from.
    pub declarative_parent: Option<Seq<char>>,
    pub wiring_config: WiringModel,
}

/// The name under which a parent is assigned; it never names a provider.
pub open spec fn parent_key() -> Seq<char> {
    "parent"@
}

impl ContainerModel {
    /// An empty container with the given identity and provider type.
    pub open spec fn fresh(id: ContainerId, provider_type: ProviderKind) -> ContainerModel {
        ContainerModel {
            id,
            provider_type,
            providers: Seq::empty(),
            attributes: Seq::empty(),
            overridden: Seq::empty(),
            parent: None,
            declarative_parent: None,
            wiring_config: WiringModel::initial(),
        }
    }

    /// Names are unique, `parent` names no provider, every registered provider
    /// satisfies the provider type, and the container does not override itself.
    pub open spec fn wf(self) -> bool {
        &&& distinct(self.providers)
        &&& lookup(self.providers, parent_key()) is None
        &&& forall|i: int|
            0 <= i < self.providers.len() ==> (#[trigger] self.providers[i]).1.kind.satisfies(
                self.provider_type,
            )
        &&& !self.overridden.contains(self.id)
    }

    /// The registration under `name`.
    pub open spec fn provider(self, name: Seq<char>) -> Option<Registration> {
        lookup(self.providers, name)
    }

    /// Whether some name registers the provider `id`.
    pub open spec fn registers(self, id: ProviderId) -> bool {
        exists|i: int| 0 <= i < self.providers.len() && (#[trigger] self.providers[i]).1.id == id
    }

    /// The container after `set_provider`: `parent` registers nothing, a
    /// provider of the wrong kind is refused, and any other provider takes the
    /// place of what the name held.
    pub open spec fn set_provider(
        self,
        name: Seq<char>,
        id: ProviderId,
        kind: ProviderKind,
    ) -> Result<ContainerModel, Error> {
        if name == parent_key() {
            Ok(self)
        } else if !kind.satisfies(self.provider_type) {
            Err(Error::WrongProviderType)
        } else {
            Ok(
                ContainerModel {
                    providers: upsert(self.providers, name, Registration { id, kind }),
                    ..self
                },
            )
        }
    }

    /// The container with the plain attribute `name` set to `value`.
    pub open spec fn set_value(self, name: Seq<char>, value: HostRef) -> ContainerModel {
        ContainerModel { attributes: upsert(self.attributes, name, value), ..self }
    }

    /// The container without the provider and without the plain attribute `name`.
    pub open spec fn del_attr(self, name: Seq<char>) -> ContainerModel {
        ContainerModel {
            providers: remove(self.providers, name),
            attributes: remove(self.attributes, name),
            ..self
        }
    }

    /// The registered providers that are dependencies, in order.
    pub open spec fn dependencies(self) -> Seq<(Seq<char>, Registration)> {
        dependency_entries(self.providers)
    }

    /// The first name that registers the provider `id`.
    pub open spec fn resolve_provider_name(self, id: ProviderId) -> Result<Seq<char>, Error> {
        let i = position_of_id(self.providers, id);
        if i < self.providers.len() {
            Ok(self.providers[i].0)
        } else {
            Err(Error::ProviderNotFound)
        }
    }

    /// The container with `parent` as its parent.
    pub open spec fn assign_parent(self, parent: ContainerId) -> ContainerModel {
        ContainerModel { parent: Some(parent), ..self }
    }

    /// The container with `other` on top of its override stack; a container
    /// cannot override itself.
    pub open spec fn override_with(self, other: ContainerId) -> Result<ContainerModel, Error> {
        if other == self.id {
            Err(Error::SelfOverrideError)
        } else {
            Ok(ContainerModel { overridden: self.overridden.push(other), ..self })
        }
    }

    /// The container without the top of its override stack, which must not be empty.
    pub open spec fn reset_last_overriding(self) -> Result<ContainerModel, Error> {
        if self.overridden.len() == 0 {
            Err(Error::NotOverriddenError)
        } else {
            Ok(ContainerModel { overridden: self.overridden.drop_last(), ..self })
        }
    }

    /// The container with an empty override stack.
    pub open spec fn reset_override(self) -> ContainerModel {
        ContainerModel { overridden: Seq::empty(), ..self }
    }

    /// Registering a provider keeps a container well formed.
    pub proof fn lemma_set_provider_wf(self, name: Seq<char>, id: ProviderId, kind: ProviderKind)
        requires
            self.wf(),
            self.set_provider(name, id, kind) is Ok,
        ensures
            self.set_provider(name, id, kind)->Ok_0.wf(),
    {
        if name != parent_key() {
            let after = self.set_provider(name, id, kind)->Ok_0;
            lemma_upsert(self.providers, name, Registration { id, kind });
            lemma_find(self.providers, name);
            assert(lookup(after.providers, parent_key()) == lookup(self.providers, parent_key()));
        }
    }

    /// Deleting a name keeps a container well formed.
    pub proof fn lemma_del_attr_wf(self, name: Seq<char>)
        requires
            self.wf(),
        ensures
            self.del_attr(name).wf(),
    {
        let after = self.del_attr(name);
        lemma_remove(self.providers, name);
        lemma_find(self.providers, name);
        let i = find(self.providers, name);
        assert forall|j: int| 0 <= j < after.providers.len() implies (
        #[trigger] after.providers[j]).1.kind.satisfies(after.provider_type) by {
            if i < self.providers.len() && j >= i {
                assert(after.providers[j] == self.providers[j + 1]);
            }
        }
        if name != parent_key() {
            assert(lookup(after.providers, parent_key()) == lookup(self.providers, parent_key()));
        }
    }
}

/// A value offered for an attribute: a provider, or a value of the embedding runtime.
pub enum Attribute<'a> {
    Provider(&'a Provider),
    Value(HostRef),
}

/// What an attribute of a container holds.
#[derive(Clone, Copy, Debug, PartialEq, Eq)]
pub enum AttributeValue {
    Provider(Registration),
    Value(HostRef),
}

/// A registry of providers by name.
#[derive(Debug)]
pub struct DynamicContainer {
    id: ContainerId,
    base: Container,
    provider_type: ProviderKind,
    providers: Vec<(String, Registration)>,
    overridden: Vec<ContainerId>,
    parent: Option<ContainerId>,
    declarative_parent: Option<String>,
    wiring_config: WiringConfiguration,
}

impl View for DynamicContainer {
    type V = ContainerModel;

    closed spec fn view(&self) -> ContainerModel {
        ContainerModel {
            id: self.id,
            provider_type: self.provider_type,
            providers: view_of(self.providers@),
            attributes: self.base@,
            overridden: self.overridden@,
            parent: self.parent,
            declarative_parent: match self.declarative_parent {
                Some(n) => Some(n@),
                None => None,
            },
            wiring_config: self.wiring_config@,
        }
    }
}

impl DynamicContainer {
    /// Whether the container is well formed; see [`ContainerModel::wf`].
    pub open spec fn wf(&self) -> bool {
        self@.wf()
    }

    /// An empty container with the identity `id` that accepts every provider.
    pub fn new(id: ContainerId) -> (r: Self)
        ensures
            r.wf(),
            r@ == ContainerModel::fresh(id, ProviderKind::Provider),
    {
        Self::with_provider_type(id, ProviderKind::Provider)
    }

    /// An empty container with the identity `id` that accepts the providers
    /// that satisfy `provider_type`.
    pub fn with_provider_type(id: ContainerId, provider_type: ProviderKind) -> (r: Self)
        ensures
            r.wf(),
            r@ == ContainerModel::fresh(id, provider_type),
    {
        let r = DynamicContainer {
            id,
            base: Container::new(),
            provider_type,
            providers: Vec::new(),
            overridden: Vec::new(),
            parent: None,
            declarative_parent: None,
            wiring_config: WiringConfiguration::default(),
        };
        proof {
            assert(r@.providers =~= Seq::empty());
            lemma_find(r@.providers, parent_key());
        }
        r
    }

    /// The identity of the container.
    pub fn id(&self) -> (r: ContainerId)
        ensures
            r == self@.id,
    {
        self.id
    }

    /// The kind that every registered provider satisfies.
    pub fn provider_type(&self) -> (r: ProviderKind)
        ensures
            r == self@.provider_type,
    {
        self.provider_type
    }

    /// The registered providers by name.
    pub fn providers(&self) -> (r: &Vec<(String, Registration)>)
        ensures
            view_of(r@) == self@.providers,
    {
        &self.providers
    }

    /// The overriding containers, most recent last.
    pub fn overridden(&self) -> (r: &Vec<ContainerId>)
        ensures
            r@ == self@.overridden,
    {
        &self.overridden
    }

    /// The parent of the container, if one is assigned.
    pub fn parent(&self) -> (r: Option<ContainerId>)
        ensures
            r == self@.parent,
    {
        self.parent
    }

    /// The name of the declarative definition that the container was made from.
    pub fn declarative_parent(&self) -> (r: Option<&String>)
        ensures
            match r {
                Some(n) => self@.declarative_parent == Some(n@),
                None => self@.declarative_parent is None,
            },
    {
        self.declarative_parent.as_ref()
    }

    /// Records the name of the declarative definition that the container was made from.
    pub fn set_declarative_parent(&mut self, name: Option<String>)
        requires
            old(self).wf(),
        ensures
            final(self).wf(),
            final(self)@ == (ContainerModel {
                declarative_parent: match name {
                    Some(n) => Some(n@),
                    None => None,
                },
                ..old(self)@
            }),
    {
        self.declarative_parent = name;
    }

    /// What the wiring subsystem reads from the container.
    pub fn wiring_config(&self) -> (r: &WiringConfiguration)
        ensures
            r@ == self@.wiring_config,
    {
        &self.wiring_config
    }

    /// Fails unless `provider` satisfies the provider type of the container.
    pub fn check_provider_type(&self, provider: &Provider) -> (r: Result<(), Error>)
        ensures
            provider@.kind().satisfies(self@.provider_type) ==> r is Ok,
            !provider@.kind().satisfies(self@.provider_type) ==> r == Err::<(), Error>(
                Error::WrongProviderType,
            ),
    {
        if provider.kind().is_instance(self.provider_type) {
            Ok(())
        } else {
            Err(Error::WrongProviderType)
        }
    }

    /// Registers `provider` under `name`, in the place of what the name held.
    /// The name `parent` registers nothing. A provider that does not satisfy
    /// the provider type is refused, and the container stays as it was.
    pub fn set_provider(&mut self, name: String, provider: &Provider) -> (r: Result<(), Error>)
        requires
            old(self).wf(),
        ensures
            final(self).wf(),
            match old(self)@.set_provider(name@, provider@.id, provider@.kind()) {
                Ok(m) => r is Ok && final(self)@ == m,
                Err(e) => r == Err::<(), Error>(e) && final(self)@ == old(self)@,
            },
            name@ == parent_key() ==> r is Ok && final(self)@ == old(self)@,
            final(self)@.provider(parent_key()) is None,
            name@ != parent_key() && !provider@.kind().satisfies(old(self)@.provider_type) ==> r
                == Err::<(), Error>(Error::WrongProviderType) && final(self)@ == old(self)@,
            name@ != parent_key() && r is Ok ==> final(self)@.provider(name@) == Some(
                Registration { id: provider@.id, kind: provider@.kind() },
            ),
    {
        let is_parent = crate::text::equals(name.as_str(), "parent");
        if is_parent {
            return Ok(());
        }
        match self.check_provider_type(provider) {
            Err(e) => {
                return Err(e);
            },
            Ok(()) => {},
        }
        let entry = Registration { id: provider.id(), kind: provider.kind() };
        proof {
            old(self)@.lemma_set_provider_wf(name@, provider@.id, provider@.kind());
            lemma_upsert(old(self)@.providers, name@, entry);
        }
        put(&mut self.providers, name, entry);
        Ok(())
    }

    /// Sets the attribute `name` to a value that is not a provider.
    pub fn set_value(&mut self, name: String, value: HostRef)
        requires
            old(self).wf(),
        ensures
            final(self).wf(),
            final(self)@ == old(self)@.set_value(name@, value),
    {
        self.base.set_attr(name, value);
    }

    /// Assigns to the attribute `name`: a provider is registered as by
    /// [`Self::set_provider`], another value is kept as a plain attribute.
    pub fn set_attr(&mut self, name: String, value: Attribute<'_>) -> (r: Result<(), Error>)
        requires
            old(self).wf(),
        ensures
            final(self).wf(),
            match value {
                Attribute::Provider(p) => match old(self)@.set_provider(
                    name@,
                    p@.id,
                    p@.kind(),
                ) {
                    Ok(m) => r is Ok && final(self)@ == m,
                    Err(e) => r == Err::<(), Error>(e) && final(self)@ == old(self)@,
                },
                Attribute::Value(v) => r is Ok && final(self)@ == old(self)@.set_value(name@, v),
            },
    {
        match value {
            Attribute::Provider(p) => self.set_provider(name, p),
            Attribute::Value(v) => {
                self.set_value(name, v);
                Ok(())
            },
        }
    }

    /// Removes `name` from the providers and from the plain attributes; a name
    /// that is not there is left alone.
    pub fn del_attr(&mut self, name: &str)
        requires
            old(self).wf(),
        ensures
            final(self).wf(),
            final(self)@ == old(self)@.del_attr(name@),
    {
        proof {
            old(self)@.lemma_del_attr_wf(name@);
        }
        take_out(&mut self.providers, name);
        self.base.del_attr(name);
    }

    /// The registration under `name`.
    pub fn get_provider(&self, name: &str) -> (r: Option<Registration>)
        ensures
            r == self@.provider(name@),
    {
        proof {
            lemma_view_of_keys(self.providers@);
        }
        let i = position(&self.providers, name);
        if i < self.providers.len() {
            Some(self.providers[i].1)
        } else {
            None
        }
    }

    /// What the attribute `name` holds: the provider registered under the
    /// name, else the plain attribute of that name.
    pub fn get_attr(&self, name: &str) -> (r: Result<AttributeValue, Error>)
        ensures
            r == (match self@.provider(name@) {
                Some(p) => Ok(AttributeValue::Provider(p)),
                None => match lookup(self@.attributes, name@) {
                    Some(v) => Ok(AttributeValue::Value(v)),
                    None => Err(Error::ProviderNotFound),
                },
            }),
    {
        match self.get_provider(name) {
            Some(p) => Ok(AttributeValue::Provider(p)),
            None => match self.base.get_attr(name) {
                Some(v) => Ok(AttributeValue::Value(v)),
                None => Err(Error::ProviderNotFound),
            },
        }
    }

    /// The registered providers that are dependencies, by name.
    pub fn dependencies(&self) -> (r: Vec<(String, Registration)>)
        ensures
            view_of(r@) == self@.dependencies(),
    {
        let mut out: Vec<(String, Registration)> = Vec::new();
        let mut i: usize = 0;
        proof {
            assert(view_of(self.providers@).take(0) =~= Seq::empty());
            assert(view_of(out@) =~= Seq::empty());
        }
        while i < self.providers.len()
            invariant
                i <= self.providers.len(),
                view_of(out@) == dependency_entries(view_of(self.providers@).take(i as int)),
            decreases self.providers.len() - i,
        {
            let ghost all = view_of(self.providers@);
            proof {
                assert(all.take(i + 1).drop_last() =~= all.take(i as int));
                assert(all.take(i + 1).last() == all[i as int]);
            }
            if self.providers[i].1.kind.is_dependency_kind() {
                let name = self.providers[i].0.clone();
                let entry = self.providers[i].1;
                proof {
                    assert(view_of(out@.push((name, entry))) =~= view_of(out@).push(all[i as int]));
                }
                out.push((name, entry));
            }
            i += 1;
        }
        proof {
            let all = view_of(self.providers@);
            assert(all.take(all.len() as int) =~= all);
        }
        out
    }

    /// The first name under which `provider` is registered.
    pub fn resolve_provider_name(&self, provider: &Provider) -> (r: Result<String, Error>)
        ensures
            match r {
                Ok(name) => self@.resolve_provider_name(provider@.id) == Ok::<Seq<char>, Error>(
                    name@,
                ),
                Err(e) => self@.resolve_provider_name(provider@.id) == Err::<Seq<char>, Error>(e),
            },
            r is Ok <==> self@.registers(provider@.id),
    {
        let wanted = provider.id();
        let ghost all = view_of(self.providers@);
        proof {
            lemma_position_of_id(all, wanted);
        }
        let mut i: usize = 0;
        while i < self.providers.len()
            invariant
                i <= self.providers.len(),
                wanted == provider@.id,
                all == view_of(self.providers@),
                i <= position_of_id(all, wanted) <= all.len(),
                position_of_id(all, wanted) < all.len() ==> all[position_of_id(
                    all,
                    wanted,
                )].1.id == wanted,
                forall|j: int| 0 <= j < position_of_id(all, wanted) ==> all[j].1.id != wanted,
            decreases self.providers.len() - i,
        {
            if self.providers[i].1.id == wanted {
                let name = self.providers[i].0.clone();
                proof {
                    assert(all[i as int].1.id == wanted);
                    assert(position_of_id(all, wanted) == i);
                    assert(all[i as int].0 == name@);
                    assert(self@.providers == all);
                }
                return Ok(name);
            }
            assert(all[i as int].1.id != wanted);
            i += 1;
        }
        proof {
            assert(self@.providers == all);
            assert(position_of_id(all, wanted) == all.len());
        }
        Err(Error::ProviderNotFound)
    }

    /// Makes `parent` the parent of the container, in the place of what it had.
    pub fn assign_parent(&mut self, parent: ContainerId)
        requires
            old(self).wf(),
        ensures
            final(self).wf(),
            final(self)@ == old(self)@.assign_parent(parent),
    {
        self.parent = Some(parent);
    }

    /// Puts `other` on top of the override stack. A container cannot override itself.
    pub fn override_with(&mut self, other: ContainerId) -> (r: Result<(), Error>)
        requires
            old(self).wf(),
        ensures
            final(self).wf(),
            match old(self)@.override_with(other) {
                Ok(m) => r is Ok && final(self)@ == m,
                Err(e) => r == Err::<(), Error>(e) && final(self)@ == old(self)@,
            },
    {
        if other == self.id {
            return Err(Error::SelfOverrideError);
        }
        self.overridden.push(other);
        proof {
            let s = old(self)@.overridden;
            assert forall|i: int| 0 <= i < s.push(other).len() implies s.push(other)[i]
                != self.id by {
                if i < s.len() {
                    assert(s.contains(s[i]));
                }
            }
        }
        Ok(())
    }

    /// Takes the most recent override off the stack.
    pub fn reset_last_overriding(&mut self) -> (r: Result<(), Error>)
        requires
            old(self).wf(),
        ensures
            final(self).wf(),
            match old(self)@.reset_last_overriding() {
                Ok(m) => r is Ok && final(self)@ == m,
                Err(e) => r == Err::<(), Error>(e) && final(self)@ == old(self)@,
            },
    {
        if self.overridden.len() == 0 {
            return Err(Error::NotOverriddenError);
        }
        self.overridden.pop();
        proof {
            let s = old(self)@.overridden;
            assert(self.overridden@ =~= s.drop_last());
            assert forall|i: int| 0 <= i < s.drop_last().len() implies s.drop_last()[i]
                != self.id by {
                assert(s.contains(s[i]));
            }
        }
        Ok(())
    }

    /// Empties the override stack.
    pub fn reset_override(&mut self)
        requires
            old(self).wf(),
        ensures
            final(self).wf(),
            final(self)@ == old(self)@.reset_override(),
    {
        self.overridden.clear();
        proof {
            assert(self.overridden@ =~= Seq::empty());
        }
    }
}

} // verus!
