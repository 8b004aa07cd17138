//! Providers: the units of the graph. A provider produces a value for the
//! embedding runtime, can be overridden by other providers, and may refer to
//! further providers through its construction arguments.

use crate::document::Document;
use crate::document::HostRef;
use crate::document::SchemaValue;
use crate::errors::Error;
use crate::table::view_of;
pub use crate::traversal::Traverse;
pub use crate::traversal::traverse;
use vstd::prelude::*;

verus! {

/// Identity of a provider: its index in the graph that owns it.
pub type ProviderId = usize;

/// Identity of a container: its index in the graph that owns it.
pub type ContainerId = usize;

/// The closed set of provider variants, plus tags for provider classes that
/// the embedding runtime defines.
#[derive(Clone, Copy, Debug, PartialEq, Eq, Structural)]
pub enum ProviderKind {
    /// The base kind; every provider satisfies it.
    Provider,
    Dependency,
    DependenciesContainer,
    Container,
    /// A provider class of the embedding runtime, told apart by its tag.
    Custom(u32),
}

impl ProviderKind {
    /// Whether a provider of this kind may stand where `required` is asked for.
    pub open spec fn satisfies(self, required: ProviderKind) -> bool {
        required == ProviderKind::Provider || self == required
    }

    /// Whether this kind marks a dependency that is supplied from outside.
    pub open spec fn is_dependency(self) -> bool {
        self == ProviderKind::Dependency || self == ProviderKind::DependenciesContainer
    }

    /// Whether a provider of this kind may stand where `required` is asked for.
    pub fn is_instance(self, required: ProviderKind) -> (r: bool)
        ensures
            r == self.satisfies(required),
    {
        required == ProviderKind::Provider || self == required
    }

    /// Whether this kind is `Dependency` or `DependenciesContainer`.
    pub fn is_dependency_kind(self) -> (r: bool)
        ensures
            r == self.is_dependency(),
    {
        self == ProviderKind::Dependency || self == ProviderKind::DependenciesContainer
    }
}

/// Whether `kind` satisfies at least one of `types`.
pub open spec fn satisfies_any(kind: ProviderKind, types: Seq<ProviderKind>) -> bool {
    exists|i: int| 0 <= i < types.len() && kind.satisfies(#[trigger] types[i])
}

/// Whether a provider of kind `kind` passes the optional type filter.
pub open spec fn passes_filter(kind: ProviderKind, types: Option<Seq<ProviderKind>>) -> bool {
    match types {
        Some(t) => satisfies_any(kind, t),
        None => true,
    }
}

/// A resolved construction argument of a provider.
#[derive(Debug, PartialEq, Eq)]
pub enum Injection {
    /// The provider object itself.
    Provider(ProviderId),
    /// The value that the provider produces when it is invoked.
    Produced(ProviderId),
    /// A provider class.
    Class(ProviderKind),
    /// A value of the embedding runtime.
    Host(HostRef),
    /// A schema value, passed through as it stands.
    Literal(SchemaValue),
}

/// The mathematical content of an [`Injection`].
pub enum InjectionModel {
    Provider(ProviderId),
    Produced(ProviderId),
    Class(ProviderKind),
    Host(HostRef),
    Literal(Document),
}

impl InjectionModel {
    /// The provider that this argument refers to, if it refers to one.
    pub open spec fn target(self) -> Option<ProviderId> {
        match self {
            InjectionModel::Provider(p) => Some(p),
            InjectionModel::Produced(p) => Some(p),
            _ => None,
        }
    }
}

impl View for Injection {
    type V = InjectionModel;

    open spec fn view(&self) -> InjectionModel {
        match self {
            Injection::Provider(p) => InjectionModel::Provider(*p),
            Injection::Produced(p) => InjectionModel::Produced(*p),
            Injection::Class(k) => InjectionModel::Class(*k),
            Injection::Host(h) => InjectionModel::Host(*h),
            Injection::Literal(v) => InjectionModel::Literal(v@),
        }
    }
}

impl Clone for Injection {
    fn clone(&self) -> (r: Self)
        ensures
            r@ == self@,
    {
        match self {
            Injection::Provider(p) => Injection::Provider(*p),
            Injection::Produced(p) => Injection::Produced(*p),
            Injection::Class(k) => Injection::Class(*k),
            Injection::Host(h) => Injection::Host(*h),
            Injection::Literal(v) => Injection::Literal(v.clone()),
        }
    }
}

impl Injection {
    /// The provider that this argument refers to, if it refers to one.
    pub fn target(&self) -> (r: Option<ProviderId>)
        ensures
            r == self@.target(),
    {
        match self {
            Injection::Provider(p) => Some(*p),
            Injection::Produced(p) => Some(*p),
            _ => None,
        }
    }
}

/// The content of a vector of arguments.
pub open spec fn injections_view(items: Seq<Injection>) -> Seq<InjectionModel> {
    Seq::new(items.len(), |i: int| items[i]@)
}

/// The content of a vector of named arguments.
pub open spec fn named_injections_view(items: Seq<(String, Injection)>) -> Seq<
    (Seq<char>, InjectionModel),
> {
    Seq::new(items.len(), |i: int| (items[i].0@, items[i].1@))
}

/// The providers that a sequence of arguments refers to, in order.
pub open spec fn targets(items: Seq<InjectionModel>) -> Seq<ProviderId>
    decreases items.len(),
{
    if items.len() == 0 {
        Seq::empty()
    } else {
        match items.last().target() {
            Some(p) => targets(items.drop_last()).push(p),
            None => targets(items.drop_last()),
        }
    }
}

/// The providers that a sequence of named arguments refers to, in order.
pub open spec fn named_targets(items: Seq<(Seq<char>, InjectionModel)>) -> Seq<ProviderId>
    decreases items.len(),
{
    if items.len() == 0 {
        Seq::empty()
    } else {
        match items.last().1.target() {
            Some(p) => named_targets(items.drop_last()).push(p),
            None => named_targets(items.drop_last()),
        }
    }
}

/// The identities in a sequence of named providers, in order.
pub open spec fn member_ids(items: Seq<(Seq<char>, ProviderId)>) -> Seq<ProviderId> {
    Seq::new(items.len(), |i: int| items[i].1)
}

/// What a `Dependency` provider adds to the base provider: the type that the
/// supplied value is expected to have, and a default to fall back on.
#[derive(Clone, Copy, Debug, PartialEq, Eq)]
pub struct Dependency {
    pub instance_of: Option<HostRef>,
    pub default: Option<HostRef>,
}

impl Dependency {
    /// A dependency on a value of the type `instance_of`, with a default to fall back on.
    pub fn new(instance_of: Option<HostRef>, default: Option<HostRef>) -> (r: Self)
        ensures
            r.instance_of == instance_of,
            r.default == default,
    {
        Dependency { instance_of, default }
    }
}

/// What a `DependenciesContainer` provider adds to the base provider: the
/// named placeholder providers that stand for an externally supplied container.
#[derive(Debug)]
pub struct DependenciesContainer {
    pub providers: Vec<(String, ProviderId)>,
}

impl DependenciesContainer {
    /// A dependencies container with the given placeholder providers.
    pub fn new(dependencies: Vec<(String, ProviderId)>) -> (r: Self)
        ensures
            r.providers == dependencies,
    {
        DependenciesContainer { providers: dependencies }
    }
}

/// What a `Container` provider adds to the base provider: the nested container
/// that it wraps.
#[derive(Clone, Copy, Debug, PartialEq, Eq, Structural)]
pub struct Container {
    pub container: ContainerId,
}

impl Container {
    /// What a provider that wraps `container` adds to the base.
    pub fn new(container: ContainerId) -> (r: Self)
        ensures
            r.container == container,
    {
        Container { container }
    }
}

/// The variant of a provider, with what the variant adds to the base.
#[derive(Debug)]
pub enum ProviderVariant {
    Plain,
    Dependency(Dependency),
    DependenciesContainer(DependenciesContainer),
    Container(Container),
    Custom(u32),
}

/// The mathematical content of a [`ProviderVariant`].
pub enum VariantModel {
    Plain,
    Dependency(Dependency),
    DependenciesContainer(Seq<(Seq<char>, ProviderId)>),
    Container(Container),
    Custom(u32),
}

impl VariantModel {
    /// The kind of a provider of this variant.
    pub open spec fn kind(self) -> ProviderKind {
        match self {
            VariantModel::Plain => ProviderKind::Provider,
            VariantModel::Dependency(_) => ProviderKind::Dependency,
            VariantModel::DependenciesContainer(_) => ProviderKind::DependenciesContainer,
            VariantModel::Container(_) => ProviderKind::Container,
            VariantModel::Custom(tag) => ProviderKind::Custom(tag),
        }
    }

    /// The variant that a provider of `kind` has when it is made without
    /// arguments; a container provider wraps `nested`.
    pub open spec fn default_of(kind: ProviderKind, nested: ContainerId) -> VariantModel {
        match kind {
            ProviderKind::Provider => VariantModel::Plain,
            ProviderKind::Dependency => VariantModel::Dependency(
                Dependency { instance_of: None, default: None },
            ),
            ProviderKind::DependenciesContainer => VariantModel::DependenciesContainer(
                Seq::empty(),
            ),
            ProviderKind::Container => VariantModel::Container(Container { container: nested }),
            ProviderKind::Custom(tag) => VariantModel::Custom(tag),
        }
    }
}

impl View for ProviderVariant {
    type V = VariantModel;

    open spec fn view(&self) -> VariantModel {
        match self {
            ProviderVariant::Plain => VariantModel::Plain,
            ProviderVariant::Dependency(d) => VariantModel::Dependency(*d),
            ProviderVariant::DependenciesContainer(d) => VariantModel::DependenciesContainer(
                view_of(d.providers@),
            ),
            ProviderVariant::Container(c) => VariantModel::Container(*c),
            ProviderVariant::Custom(tag) => VariantModel::Custom(*tag),
        }
    }
}

impl ProviderVariant {
    /// The kind of a provider of this variant.
    pub fn kind(&self) -> (r: ProviderKind)
        ensures
            r == self@.kind(),
    {
        match self {
            ProviderVariant::Plain => ProviderKind::Provider,
            ProviderVariant::Dependency(_) => ProviderKind::Dependency,
            ProviderVariant::DependenciesContainer(_) => ProviderKind::DependenciesContainer,
            ProviderVariant::Container(_) => ProviderKind::Container,
            ProviderVariant::Custom(tag) => ProviderKind::Custom(*tag),
        }
    }

    /// The variant that a provider of `kind` has when it is made without
    /// arguments; a container provider wraps `nested`.
    pub fn default_of(kind: ProviderKind, nested: ContainerId) -> (r: Self)
        ensures
            r@ == VariantModel::default_of(kind, nested),
    {
        match kind {
            ProviderKind::Provider => ProviderVariant::Plain,
            ProviderKind::Dependency => ProviderVariant::Dependency(Dependency::new(None, None)),
            ProviderKind::DependenciesContainer => {
                let r = ProviderVariant::DependenciesContainer(
                    DependenciesContainer::new(Vec::new()),
                );
                assert(r@->DependenciesContainer_0 =~= Seq::empty());
                r
            },
            ProviderKind::Container => ProviderVariant::Container(Container::new(nested)),
            ProviderKind::Custom(tag) => ProviderVariant::Custom(tag),
        }
    }
}

/// The mathematical content of a [`Provider`].
pub struct ProviderModel {
    pub id: ProviderId,
    pub variant: VariantModel,
    /// The overriding providers, most recent last.
    pub overridden: Seq<ProviderId>,
    pub provides: Option<InjectionModel>,
    pub args: Seq<InjectionModel>,
    pub kwargs: Seq<(Seq<char>, InjectionModel)>,
}

impl ProviderModel {
    /// A provider with the given identity and variant and nothing else.
    pub open spec fn fresh(id: ProviderId, variant: VariantModel) -> ProviderModel {
        ProviderModel {
            id,
            variant,
            overridden: Seq::empty(),
            provides: None,
            args: Seq::empty(),
            kwargs: Seq::empty(),
        }
    }

    /// A provider never stands in its own override stack.
    pub open spec fn wf(self) -> bool {
        !self.overridden.contains(self.id)
    }

    /// The kind of the provider.
    pub open spec fn kind(self) -> ProviderKind {
        self.variant.kind()
    }

    /// The provider that currently answers for this one: the top of the stack.
    pub open spec fn last_overriding(self) -> Option<ProviderId> {
        if self.overridden.len() > 0 {
            Some(self.overridden.last())
        } else {
            None
        }
    }

    /// The provider with `other` on top of its override stack; a provider
    /// cannot override itself.
    pub open spec fn override_with(self, other: ProviderId) -> Result<ProviderModel, Error> {
        if other == self.id {
            Err(Error::SelfOverrideError)
        } else {
            Ok(ProviderModel { overridden: self.overridden.push(other), ..self })
        }
    }

    /// The provider without the top of its override stack, which must not be empty.
    pub open spec fn reset_last_overriding(self) -> Result<ProviderModel, Error> {
        if self.overridden.len() == 0 {
            Err(Error::NotOverriddenError)
        } else {
            Ok(ProviderModel { overridden: self.overridden.drop_last(), ..self })
        }
    }

    /// The provider with an empty override stack.
    pub open spec fn reset_override(self) -> ProviderModel {
        ProviderModel { overridden: Seq::empty(), ..self }
    }

    /// The provider with `provides` as what it produces.
    pub open spec fn set_provides(self, provides: InjectionModel) -> ProviderModel {
        ProviderModel { provides: Some(provides), ..self }
    }

    /// The provider with `args` after its positional arguments.
    pub open spec fn add_args(self, args: Seq<InjectionModel>) -> ProviderModel {
        ProviderModel { args: self.args + args, ..self }
    }

    /// The provider with `kwargs` after its keyword arguments.
    pub open spec fn add_kwargs(self, kwargs: Seq<(Seq<char>, InjectionModel)>) -> ProviderModel {
        ProviderModel { kwargs: self.kwargs + kwargs, ..self }
    }

    /// The providers that this one refers to by itself: what it provides, its
    /// positional and keyword arguments, and the members of a dependencies
    /// container, in that order.
    pub open spec fn referenced(self) -> Seq<ProviderId> {
        let provided = match self.provides {
            Some(p) => targets(seq![p]),
            None => Seq::empty(),
        };
        let members = match self.variant {
            VariantModel::DependenciesContainer(m) => member_ids(m),
            _ => Seq::empty(),
        };
        provided + targets(self.args) + named_targets(self.kwargs) + members
    }
}

/// The base unit of the graph.
#[derive(Debug)]
pub struct Provider {
    id: ProviderId,
    variant: ProviderVariant,
    overridden: Vec<ProviderId>,
    last_overriding: Option<ProviderId>,
    provides: Option<Injection>,
    args: Vec<Injection>,
    kwargs: Vec<(String, Injection)>,
}

impl View for Provider {
    type V = ProviderModel;

    closed spec fn view(&self) -> ProviderModel {
        ProviderModel {
            id: self.id,
            variant: self.variant@,
            overridden: self.overridden@,
            provides: match self.provides {
                Some(p) => Some(p@),
                None => None,
            },
            args: injections_view(self.args@),
            kwargs: named_injections_view(self.kwargs@),
        }
    }
}

impl Provider {
    /// The cached top of the override stack agrees with the stack, and the
    /// provider does not override itself.
    pub closed spec fn wf(&self) -> bool {
        &&& self@.wf()
        &&& self.last_overriding == self@.last_overriding()
    }

    /// A plain provider with the identity `id`.
    pub fn new(id: ProviderId) -> (r: Self)
        ensures
            r.wf(),
            r@ == ProviderModel::fresh(id, VariantModel::Plain),
    {
        Self::with_variant(id, ProviderVariant::Plain)
    }

    /// A provider of the given variant with the identity `id`.
    pub fn with_variant(id: ProviderId, variant: ProviderVariant) -> (r: Self)
        ensures
            r.wf(),
            r@ == ProviderModel::fresh(id, variant@),
    {
        let r = Provider {
            id,
            variant,
            overridden: Vec::new(),
            last_overriding: None,
            provides: None,
            args: Vec::new(),
            kwargs: Vec::new(),
        };
        assert(r@.args =~= Seq::empty());
        assert(r@.kwargs =~= Seq::empty());
        r
    }

    /// The identity of the provider.
    pub fn id(&self) -> (r: ProviderId)
        ensures
            r == self@.id,
    {
        self.id
    }

    /// The kind of the provider.
    pub fn kind(&self) -> (r: ProviderKind)
        ensures
            r == self@.kind(),
    {
        self.variant.kind()
    }

    /// The variant of the provider, with what it adds to the base.
    pub fn variant(&self) -> (r: &ProviderVariant)
        ensures
            r@ == self@.variant,
    {
        &self.variant
    }

    /// The overriding providers, most recent last.
    pub fn overridden(&self) -> (r: &Vec<ProviderId>)
        ensures
            r@ == self@.overridden,
    {
        &self.overridden
    }

    /// The provider that currently answers for this one, if it is overridden.
    pub fn last_overriding(&self) -> (r: Option<ProviderId>)
        requires
            self.wf(),
        ensures
            r == self@.last_overriding(),
    {
        self.last_overriding
    }

    /// What the provider produces, if it is recorded.
    pub fn provides(&self) -> (r: Option<&Injection>)
        ensures
            match r {
                Some(p) => self@.provides == Some(p@),
                None => self@.provides is None,
            },
    {
        self.provides.as_ref()
    }

    /// The positional construction arguments.
    pub fn args(&self) -> (r: &Vec<Injection>)
        ensures
            injections_view(r@) == self@.args,
    {
        &self.args
    }

    /// The keyword construction arguments, by name.
    pub fn kwargs(&self) -> (r: &Vec<(String, Injection)>)
        ensures
            named_injections_view(r@) == self@.kwargs,
    {
        &self.kwargs
    }

    /// The providers that this one refers to by itself; see
    /// [`ProviderModel::referenced`].
    pub fn referenced(&self) -> (r: Vec<ProviderId>)
        ensures
            r@ == self@.referenced(),
    {
        let mut out: Vec<ProviderId> = Vec::new();
        match &self.provides {
            Some(p) => {
                proof {
                    assert(seq![p@].drop_last() =~= Seq::empty());
                    assert(targets(Seq::<InjectionModel>::empty()) =~= Seq::empty());
                }
                match p.target() {
                    Some(id) => {
                        out.push(id);
                        assert(out@ =~= targets(seq![p@]));
                    },
                    None => {
                        assert(out@ =~= targets(seq![p@]));
                    },
                }
            },
            None => {},
        }
        let ghost provided = out@;
        let mut i: usize = 0;
        proof {
            assert(self@.args.take(0) =~= Seq::empty());
            assert(out@ =~= provided + targets(self@.args.take(0)));
        }
        while i < self.args.len()
            invariant
                i <= self.args.len(),
                self@.args == injections_view(self.args@),
                out@ == provided + targets(self@.args.take(i as int)),
            decreases self.args.len() - i,
        {
            proof {
                let all = self@.args;
                assert(all.take(i + 1).drop_last() =~= all.take(i as int));
                assert(all.take(i + 1).last() == self.args[i as int]@);
            }
            match self.args[i].target() {
                Some(id) => {
                    out.push(id);
                },
                None => {},
            }
            i += 1;
            assert(out@ =~= provided + targets(self@.args.take(i as int)));
        }
        proof {
            assert(self@.args.take(self@.args.len() as int) =~= self@.args);
        }
        let ghost positional = out@;
        let mut k: usize = 0;
        proof {
            assert(self@.kwargs.take(0) =~= Seq::empty());
            assert(out@ =~= positional + named_targets(self@.kwargs.take(0)));
        }
        while k < self.kwargs.len()
            invariant
                k <= self.kwargs.len(),
                self@.kwargs == named_injections_view(self.kwargs@),
                out@ == positional + named_targets(self@.kwargs.take(k as int)),
            decreases self.kwargs.len() - k,
        {
            proof {
                let all = self@.kwargs;
                assert(all.take(k + 1).drop_last() =~= all.take(k as int));
                assert(all.take(k + 1).last().1 == self.kwargs[k as int].1@);
            }
            match self.kwargs[k].1.target() {
                Some(id) => {
                    out.push(id);
                },
                None => {},
            }
            k += 1;
            assert(out@ =~= positional + named_targets(self@.kwargs.take(k as int)));
        }
        proof {
            assert(self@.kwargs.take(self@.kwargs.len() as int) =~= self@.kwargs);
        }
        let ghost named = out@;
        match &self.variant {
            ProviderVariant::DependenciesContainer(d) => {
                let mut m: usize = 0;
                while m < d.providers.len()
                    invariant
                        m <= d.providers.len(),
                        out@ == named + member_ids(view_of(d.providers@)).take(m as int),
                    decreases d.providers.len() - m,
                {
                    out.push(d.providers[m].1);
                    m += 1;
                    assert(out@ =~= named + member_ids(view_of(d.providers@)).take(m as int));
                }
                proof {
                    let ids = member_ids(view_of(d.providers@));
                    assert(ids.take(ids.len() as int) =~= ids);
                }
            },
            _ => {
                assert(out@ =~= named + Seq::<ProviderId>::empty());
            },
        }
        out
    }

    /// Puts `other` on top of the override stack. A provider cannot override itself.
    pub fn override_with(&mut self, other: ProviderId) -> (r: Result<(), Error>)
        requires
            old(self).wf(),
        ensures
            final(self).wf(),
            match old(self)@.override_with(other) {
                Ok(m) => r is Ok && final(self)@ == m,
                Err(e) => r == Err::<(), Error>(e) && final(self)@ == old(self)@,
            },
            other == old(self)@.id <==> r == Err::<(), Error>(Error::SelfOverrideError),
    {
        if other == self.id {
            return Err(Error::SelfOverrideError);
        }
        self.overridden.push(other);
        self.last_overriding = Some(other);
        proof {
            let s = old(self)@.overridden;
            assert forall|i: int| 0 <= i < s.push(other).len() implies s.push(other)[i]
                != self.id by {
                if i < s.len() {
                    assert(s.contains(s[i]));
                }
            }
        }
        Ok(())
    }

    /// Takes the most recent override off the stack.
    pub fn reset_last_overriding(&mut self) -> (r: Result<(), Error>)
        requires
            old(self).wf(),
        ensures
            final(self).wf(),
            match old(self)@.reset_last_overriding() {
                Ok(m) => r is Ok && final(self)@ == m,
                Err(e) => r == Err::<(), Error>(e) && final(self)@ == old(self)@,
            },
            old(self)@.overridden.len() == 0 <==> r == Err::<(), Error>(Error::NotOverriddenError),
    {
        if self.overridden.len() == 0 {
            return Err(Error::NotOverriddenError);
        }
        self.overridden.pop();
        let n = self.overridden.len();
        self.last_overriding = if n > 0 {
            Some(self.overridden[n - 1])
        } else {
            None
        };
        proof {
            let s = old(self)@.overridden;
            assert(self.overridden@ =~= s.drop_last());
            assert forall|i: int| 0 <= i < s.drop_last().len() implies s.drop_last()[i]
                != self.id by {
                assert(s.contains(s[i]));
            }
        }
        Ok(())
    }

    /// Empties the override stack.
    pub fn reset_override(&mut self)
        requires
            old(self).wf(),
        ensures
            final(self).wf(),
            final(self)@ == old(self)@.reset_override(),
            final(self)@.overridden.len() == 0,
    {
        self.overridden.clear();
        self.last_overriding = None;
        proof {
            assert(self.overridden@ =~= Seq::empty());
        }
    }

    /// Records what the provider produces.
    pub fn set_provides(&mut self, provides: Injection)
        requires
            old(self).wf(),
        ensures
            final(self).wf(),
            final(self)@ == old(self)@.set_provides(provides@),
    {
        self.provides = Some(provides);
    }

    /// Appends positional construction arguments.
    pub fn add_args(&mut self, args: Vec<Injection>)
        requires
            old(self).wf(),
        ensures
            final(self).wf(),
            final(self)@ == old(self)@.add_args(injections_view(args@)),
    {
        let ghost added = injections_view(args@);
        let mut args = args;
        self.args.append(&mut args);
        proof {
            assert(injections_view(self.args@) =~= old(self)@.args + added);
        }
    }

    /// Appends keyword construction arguments.
    pub fn add_kwargs(&mut self, kwargs: Vec<(String, Injection)>)
        requires
            old(self).wf(),
        ensures
            final(self).wf(),
            final(self)@ == old(self)@.add_kwargs(named_injections_view(kwargs@)),
    {
        let ghost added = named_injections_view(kwargs@);
        let mut kwargs = kwargs;
        self.kwargs.append(&mut kwargs);
        proof {
            assert(named_injections_view(self.kwargs@) =~= old(self)@.kwargs + added);
        }
    }
}

} // verus!
