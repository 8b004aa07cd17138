//! The schema processor: builds the providers that a schema document
//! declares, and then wires their construction arguments.

use crate::containers::Registration;
use crate::containers::parent_key;
use crate::document::Document;
use crate::document::SchemaValue;
use crate::document::entries_view;
use crate::document::list_view;
use crate::errors::Error;
use crate::errors::SchemaError;
use crate::graph::Graph;
use crate::graph::GraphModel;
use crate::graph::grown;
use crate::graph::kept;
use crate::graph::lemma_grown_further;
use crate::graph::lemma_kept_further;
use crate::graph::wraps_kept;
use crate::injections::instantiate;
use crate::injections::instantiate_provider;
use crate::injections::resolve_args;
use crate::injections::resolve_keywords;
use crate::injections::resolve_kwargs;
use crate::injections::resolve_optional;
use crate::injections::resolve_positional;
use crate::injections::resolve_provides;
use crate::providers::ContainerId;
use crate::providers::ProviderId;
use crate::providers::ProviderKind;
use crate::reference::reference_path;
use crate::reference::reference_prefix;
use crate::symbols::ResolverModel;
use crate::symbols::SymbolResolver;
use crate::symbols::get_provider_cls;
use crate::symbols::provider_kind_named;
use crate::table::find;
use crate::table::lemma_find;
use crate::table::lemma_upsert;
use crate::table::lookup;
use crate::table::view_of;
use crate::text::views;
use vstd::prelude::*;

verus! {

/// The kind of provider that an entry with these fields declares: the class
/// named by `provider`, or a nested container where there is no such field.
pub open spec fn entry_kind(r: ResolverModel, fields: Seq<(Seq<char>, Document)>) -> Result<
    ProviderKind,
    Error,
> {
    let k = find(fields, "provider"@);
    if 0 <= k < fields.len() {
        match fields[k].1 {
            Document::Text(cls) => provider_kind_named(r, cls),
            _ => Err(Error::SchemaError(SchemaError::InvalidNode)),
        }
    } else {
        Ok(ProviderKind::Container)
    }
}

/// The first pass over one entry: the provider that `data` declares is made
/// and registered under `name` in `target`; where it wraps a container, the
/// entries of `data` are created in that container.
pub open spec fn create_entry(
    g: GraphModel,
    r: ResolverModel,
    name: Seq<char>,
    data: Document,
    target: ContainerId,
) -> (GraphModel, Result<(), Error>)
    decreases data, 0nat,
{
    match data {
        Document::Mapping(fields) => match entry_kind(r, fields) {
            Err(e) => (g, Err(e)),
            Ok(kind) => {
                let (g1, p) = instantiate(g, kind);
                match g1.set_provider(target, name, p) {
                    Err(e) => (g1, Err(e)),
                    Ok(g2) => match g2.wrapped(p) {
                        Some(inner) => create_entries(g2, r, fields, inner, 0),
                        None => (g2, Ok(())),
                    },
                }
            },
        },
        _ => (g, Err(Error::SchemaError(SchemaError::InvalidNode))),
    }
}

/// The first pass over the entries of `node` from index `i` on, in order, up
/// to the first that fails; what was built before a failure stays.
pub open spec fn create_entries(
    g: GraphModel,
    r: ResolverModel,
    node: Seq<(Seq<char>, Document)>,
    target: ContainerId,
    i: int,
) -> (GraphModel, Result<(), Error>)
    decreases node, node.len() - i,
{
    if i < 0 || i >= node.len() {
        (g, Ok(()))
    } else {
        let (g1, made) = create_entry(g, r, node[i].0, node[i].1, target);
        match made {
            Ok(()) => create_entries(g1, r, node, target, i + 1),
            Err(e) => (g1, Err(e)),
        }
    }
}

/// Resolves `provides`, `args` and `kwargs` of `fields`, in that order, and
/// attaches each to the provider `p`; arguments are attached only where
/// there are any.
pub open spec fn attach(
    g: GraphModel,
    r: ResolverModel,
    root: ContainerId,
    p: ProviderId,
    fields: Seq<(Seq<char>, Document)>,
) -> (GraphModel, Result<(), Error>) {
    let (g1, provides) = resolve_optional(g, r, root, fields);
    match provides {
        Err(e) => (g1, Err(e)),
        Ok(provides) => {
            let provided = match provides {
                Some(x) => g1.set_provides(p, x),
                None => Ok(g1),
            };
            match provided {
                Err(e) => (g1, Err(e)),
                Ok(g2) => {
                    let (g3, args) = resolve_args(g2, r, root, fields);
                    match args {
                        Err(e) => (g3, Err(e)),
                        Ok(args) => {
                            let positional = if args.len() > 0 {
                                g3.add_args(p, args)
                            } else {
                                Ok(g3)
                            };
                            match positional {
                                Err(e) => (g3, Err(e)),
                                Ok(g4) => {
                                    let (g5, kwargs) = resolve_kwargs(g4, r, root, fields);
                                    match kwargs {
                                        Err(e) => (g5, Err(e)),
                                        Ok(kwargs) => {
                                            let named = if kwargs.len() > 0 {
                                                g5.add_kwargs(p, kwargs)
                                            } else {
                                                Ok(g5)
                                            };
                                            match named {
                                                Err(e) => (g5, Err(e)),
                                                Ok(g6) => (g6, Ok(())),
                                            }
                                        },
                                    }
                                },
                            }
                        },
                    }
                },
            }
        },
    }
}

/// The second pass over one entry: the provider registered under `name` in
/// `target` gets what `data` says of it; where it wraps a container, the
/// entries of `data` are wired in that container.
pub open spec fn setup_entry(
    g: GraphModel,
    r: ResolverModel,
    root: ContainerId,
    name: Seq<char>,
    data: Document,
    target: ContainerId,
) -> (GraphModel, Result<(), Error>)
    decreases data, 0nat,
{
    if !g.has_container(target) {
        (g, Err(Error::ProviderNotFound))
    } else {
        match g.containers[target as int].provider(name) {
            None => (g, Err(Error::ProviderNotFound)),
            Some(found) => match data {
                Document::Mapping(fields) => {
                    let (g1, attached) = attach(g, r, root, found.id, fields);
                    match attached {
                        Err(e) => (g1, Err(e)),
                        Ok(()) => match g1.wrapped(found.id) {
                            Some(inner) => setup_entries(g1, r, root, fields, inner, 0),
                            None => (g1, Ok(())),
                        },
                    }
                },
                _ => (g, Err(Error::SchemaError(SchemaError::InvalidNode))),
            },
        }
    }
}

/// The second pass over the entries of `node` from index `i` on, in order,
/// up to the first that fails; what was wired before a failure stays.
pub open spec fn setup_entries(
    g: GraphModel,
    r: ResolverModel,
    root: ContainerId,
    node: Seq<(Seq<char>, Document)>,
    target: ContainerId,
    i: int,
) -> (GraphModel, Result<(), Error>)
    decreases node, node.len() - i,
{
    if i < 0 || i >= node.len() {
        (g, Ok(()))
    } else {
        let (g1, wired) = setup_entry(g, r, root, node[i].0, node[i].1, target);
        match wired {
            Ok(()) => setup_entries(g1, r, root, node, target, i + 1),
            Err(e) => (g1, Err(e)),
        }
    }
}

/// Both passes over the mapping under `container` of a schema document, with
/// `root` as the container to fill. A document without that key is refused
/// before anything is made.
pub open spec fn process_schema(
    g: GraphModel,
    r: ResolverModel,
    schema: Document,
    root: ContainerId,
) -> (GraphModel, Result<(), Error>) {
    match schema.get("container"@) {
        None => (g, Err(Error::SchemaError(SchemaError::MissingContainer))),
        Some(Document::Mapping(node)) => {
            let (g1, created) = create_entries(g, r, node, root, 0);
            match created {
                Err(e) => (g1, Err(e)),
                Ok(()) => setup_entries(g1, r, root, node, root, 0),
            }
        },
        Some(_) => (g, Err(Error::SchemaError(SchemaError::InvalidNode))),
    }
}

/// The registrations of the container `c`; none where the graph has no such container.
pub open spec fn providers_of(g: GraphModel, c: ContainerId) -> Seq<(Seq<char>, Registration)> {
    if g.has_container(c) {
        g.containers[c as int].providers
    } else {
        Seq::empty()
    }
}

/// Whether the container `target` registers a provider under the name of
/// every entry of `node` before index `upto`, but for the name `parent`.
pub open spec fn registers_names(
    g: GraphModel,
    node: Seq<(Seq<char>, Document)>,
    target: ContainerId,
    upto: int,
) -> bool {
    forall|k: int|
        0 <= k < upto && k < node.len() && (#[trigger] node[k]).0 != parent_key() ==> g.has_container(
            target,
        ) && g.containers[target as int].provider(node[k].0) is Some
}

/// Whether no entry of `node` after the one at index `k` has its name: the
/// entry at `k` is the one that the name stands for in the end.
pub open spec fn last_under_name(node: Seq<(Seq<char>, Document)>, k: int) -> bool {
    forall|j: int| k < j < node.len() ==> (#[trigger] node[j]).0 != node[k].0
}

/// Whether a schema entry declares a nested container: it is a mapping
/// without a `provider` field.
pub open spec fn declares_container(data: Document) -> bool {
    match data {
        Document::Mapping(fields) => !(0 <= find(fields, "provider"@) < fields.len()),
        _ => false,
    }
}

/// Whether the graph holds what the entry `name: data` declares, in the
/// container `target`: the container registers a provider under the name;
/// and where the entry declares a nested container, that provider wraps a
/// container with an identity of at least `floor`, which in turn holds what
/// each of the entries of `data` declares, as far as the entry is the last
/// of its name and the name is not `parent`.
pub open spec fn built_entry(
    g: GraphModel,
    name: Seq<char>,
    data: Document,
    target: ContainerId,
    floor: nat,
) -> bool
    decreases data,
{
    &&& g.has_container(target)
    &&& g.containers[target as int].provider(name) matches Some(found)
    &&& g.has_provider(found.id)
    &&& match data {
        Document::Mapping(fields) => !(0 <= find(fields, "provider"@) < fields.len()) ==> {
            &&& g.wrapped(found.id) matches Some(inner)
            &&& floor <= inner
            &&& g.has_container(inner)
            &&& forall|k: int|
                0 <= k < fields.len() && (#[trigger] fields[k]).0 != parent_key()
                    && last_under_name(fields, k) ==> built_entry(
                    g,
                    fields[k].0,
                    fields[k].1,
                    inner,
                    floor,
                )
        },
        _ => true,
    }
}

/// Whether the graph holds in `target` what each entry of `node` before
/// index `upto` declares, as far as no later entry before `upto` has its
/// name and the name is not `parent`.
pub open spec fn built_entries(
    g: GraphModel,
    node: Seq<(Seq<char>, Document)>,
    target: ContainerId,
    floor: nat,
    upto: int,
) -> bool {
    forall|k: int|
        0 <= k < upto && k < node.len() && (#[trigger] node[k]).0 != parent_key() && (forall|
            j: int,
        |
            k < j < upto && j < node.len() ==> (#[trigger] node[j]).0 != node[k].0)
            ==> built_entry(g, node[k].0, node[k].1, target, floor)
}

/// What is built above a floor is built above every lower floor.
pub proof fn lemma_built_above(
    g: GraphModel,
    name: Seq<char>,
    data: Document,
    target: ContainerId,
    floor: nat,
    lower: nat,
)
    requires
        built_entry(g, name, data, target, floor),
        lower <= floor,
    ensures
        built_entry(g, name, data, target, lower),
    decreases data,
{
    match data {
        Document::Mapping(fields) => {
            if !(0 <= find(fields, "provider"@) < fields.len()) {
                let found = g.containers[target as int].provider(name)->Some_0;
                let inner = g.wrapped(found.id)->Some_0;
                assert forall|k: int|
                    0 <= k < fields.len() && (#[trigger] fields[k]).0 != parent_key()
                        && last_under_name(fields, k) implies built_entry(
                    g,
                    fields[k].0,
                    fields[k].1,
                    inner,
                    lower,
                ) by {
                    lemma_built_above(g, fields[k].0, fields[k].1, inner, floor, lower);
                }
            }
        },
        _ => {},
    }
}

/// What is built stays built in a graph that has the registration of the
/// entry, has the containers from the floor on as they were, and has every
/// provider with what it wrapped.
pub proof fn lemma_built_stays(
    g: GraphModel,
    h: GraphModel,
    name: Seq<char>,
    data: Document,
    target: ContainerId,
    floor: nat,
)
    requires
        built_entry(g, name, data, target, floor),
        h.has_container(target),
        h.containers[target as int].provider(name) == g.containers[target as int].provider(name),
        g.providers.len() <= h.providers.len(),
        g.containers.len() <= h.containers.len(),
        forall|c: int|
            floor <= c < g.containers.len() ==> #[trigger] h.containers[c] == g.containers[c],
        wraps_kept(g, h),
    ensures
        built_entry(h, name, data, target, floor),
    decreases data,
{
    let found = g.containers[target as int].provider(name)->Some_0;
    assert(h.wrapped(found.id) == g.wrapped(found.id));
    match data {
        Document::Mapping(fields) => {
            if !(0 <= find(fields, "provider"@) < fields.len()) {
                let inner = g.wrapped(found.id)->Some_0;
                assert(h.containers[inner as int] == g.containers[inner as int]);
                assert forall|k: int|
                    0 <= k < fields.len() && (#[trigger] fields[k]).0 != parent_key()
                        && last_under_name(fields, k) implies built_entry(
                    h,
                    fields[k].0,
                    fields[k].1,
                    inner,
                    floor,
                ) by {
                    lemma_built_stays(g, h, fields[k].0, fields[k].1, inner, floor);
                }
            }
        },
        _ => {},
    }
}

/// Whether the graph holds in `root` what the schema declares: what each
/// entry under `container` declares, nested containers with their entries
/// included, as far as the entry is the last of its name and the name is not
/// `parent`. The nested containers have identities of at least `floor`.
pub open spec fn built_declared(
    g: GraphModel,
    schema: Document,
    root: ContainerId,
    floor: nat,
) -> bool {
    match schema.get("container"@) {
        Some(Document::Mapping(node)) => built_entries(g, node, root, floor, node.len() as int),
        _ => false,
    }
}

/// Whether the container `root` registers a provider under the name of
/// every entry that the schema declares at its top level, but for the name
/// `parent`.
pub open spec fn registers_declared(g: GraphModel, schema: Document, root: ContainerId) -> bool {
    match schema.get("container"@) {
        Some(Document::Mapping(node)) => registers_names(g, node, root, node.len() as int),
        _ => false,
    }
}

/// Reads the kind of provider that an entry declares; see [`entry_kind`].
pub fn declared_kind(resolver: &SymbolResolver, fields: &Vec<(String, SchemaValue)>) -> (r: Result<
    ProviderKind,
    Error,
>)
    ensures
        r == entry_kind(resolver@, entries_view(fields@)),
{
    let k = SchemaValue::position(fields, "provider");
    if k < fields.len() {
        match &fields[k].1 {
            SchemaValue::Text(cls) => get_provider_cls(resolver, cls.as_str()),
            _ => Err(Error::SchemaError(SchemaError::InvalidNode)),
        }
    } else {
        Ok(ProviderKind::Container)
    }
}

/// Resolves and attaches what `fields` says of the provider `p`; see [`attach`].
pub fn attach_injections(
    graph: &mut Graph,
    resolver: &SymbolResolver,
    root: ContainerId,
    p: ProviderId,
    fields: &Vec<(String, SchemaValue)>,
) -> (r: Result<(), Error>)
    requires
        old(graph).wf(),
    ensures
        final(graph).wf(),
        kept(old(graph)@, final(graph)@),
        (final(graph)@, r) == attach(old(graph)@, resolver@, root, p, entries_view(fields@)),
{
    let provided = resolve_provides(graph, resolver, root, fields);
    let ghost g1 = graph@;
    proof {
        graph.lemma_model_wf();
    }
    match provided {
        Err(e) => {
            return Err(e);
        },
        Ok(Some(provides)) => {
            match graph.set_provides(p, provides) {
                Err(e) => {
                    return Err(e);
                },
                Ok(()) => {},
            }
        },
        Ok(None) => {},
    }
    let ghost g2 = graph@;
    proof {
        assert(g2.containers == g1.containers);
        lemma_kept_further(old(graph)@, g1, g2);
    }
    let positional = resolve_positional(graph, resolver, root, fields);
    let ghost g3 = graph@;
    proof {
        lemma_kept_further(old(graph)@, g2, g3);
        graph.lemma_model_wf();
    }
    let args = match positional {
        Err(e) => {
            return Err(e);
        },
        Ok(args) => args,
    };
    if args.len() > 0 {
        match graph.add_args(p, args) {
            Err(e) => {
                return Err(e);
            },
            Ok(()) => {},
        }
    }
    let ghost g4 = graph@;
    proof {
        assert(g4.containers == g3.containers);
        lemma_kept_further(old(graph)@, g3, g4);
    }
    let named = resolve_keywords(graph, resolver, root, fields);
    let ghost g5 = graph@;
    proof {
        lemma_kept_further(old(graph)@, g4, g5);
        graph.lemma_model_wf();
    }
    let kwargs = match named {
        Err(e) => {
            return Err(e);
        },
        Ok(kwargs) => kwargs,
    };
    if kwargs.len() > 0 {
        match graph.add_kwargs(p, kwargs) {
            Err(e) => {
                return Err(e);
            },
            Ok(()) => {},
        }
    }
    proof {
        assert(graph@.containers == g5.containers);
        lemma_kept_further(old(graph)@, g5, graph@);
    }
    Ok(())
}

/// Builds a root container from a schema document in two passes.
#[derive(Debug)]
pub struct SchemaProcessorV1 {
    schema: SchemaValue,
    container: ContainerId,
    resolver: SymbolResolver,
}

impl SchemaProcessorV1 {
    /// The document that is processed.
    pub closed spec fn document(&self) -> Document {
        self.schema@
    }

    /// The container that is filled.
    pub closed spec fn root(&self) -> ContainerId {
        self.container
    }

    /// The symbols that names in the document are resolved to.
    pub closed spec fn symbols(&self) -> ResolverModel {
        self.resolver@
    }

    /// A processor for `schema`, with a new, empty root container in `graph`.
    pub fn new(graph: &mut Graph, schema: SchemaValue, resolver: SymbolResolver) -> (r: Self)
        requires
            old(graph).wf(),
        ensures
            final(graph).wf(),
            final(graph)@ == old(graph)@.add_container(ProviderKind::Provider),
            r.root() == old(graph)@.containers.len(),
            r.document() == schema@,
            r.symbols() == resolver@,
    {
        let container = graph.add_container(ProviderKind::Provider);
        SchemaProcessorV1 { schema, container, resolver }
    }

    /// The identity of the root container.
    pub fn container(&self) -> (r: ContainerId)
        ensures
            r == self.root(),
    {
        self.container
    }

    /// Runs both passes; see [`process_schema`]. A document without the key
    /// `container` is refused before anything is made. Where both passes
    /// succeed, the root container holds what the document declares; see
    /// [`built_declared`].
    pub fn process(&mut self, graph: &mut Graph) -> (r: Result<(), Error>)
        requires
            old(graph).wf(),
        ensures
            final(graph).wf(),
            final(self).document() == old(self).document(),
            final(self).root() == old(self).root(),
            final(self).symbols() == old(self).symbols(),
            (final(graph)@, r) == process_schema(
                old(graph)@,
                old(self).symbols(),
                old(self).document(),
                old(self).root(),
            ),
            old(self).document().get("container"@) is None ==> r == Err::<(), Error>(
                Error::SchemaError(SchemaError::MissingContainer),
            ) && final(graph)@ == old(graph)@,
            grown(old(graph)@, final(graph)@, old(self).root()),
            r is Ok ==> registers_declared(final(graph)@, old(self).document(), old(self).root()),
            r is Ok && old(graph)@.has_container(old(self).root()) ==> built_declared(
                final(graph)@,
                old(self).document(),
                old(self).root(),
                old(graph)@.containers.len(),
            ),
    {
        let container_schema = match self.schema.get("container") {
            Some(found) => found,
            None => {
                return Err(Error::SchemaError(SchemaError::MissingContainer));
            },
        };
        let node = match container_schema {
            SchemaValue::Mapping(node) => node,
            _ => {
                return Err(Error::SchemaError(SchemaError::InvalidNode));
            },
        };
        proof {
            container_schema.lemma_mapping_view();
        }
        match self.create_providers(graph, node, None) {
            Err(e) => {
                return Err(e);
            },
            Ok(()) => {},
        }
        let ghost created = graph@;
        let r = self.setup_injections(graph, node, None);
        proof {
            let root = self.root();
            let names = entries_view(node@);
            assert(grown(created, graph@, root));
            lemma_grown_further(old(graph)@, created, graph@, root);
            assert forall|k: int|
                0 <= k < names.len() && (#[trigger] names[k]).0
                    != parent_key() implies graph@.has_container(root)
                && graph@.containers[root as int].provider(names[k].0) is Some by {
                assert(created.containers[root as int].provider(names[k].0) is Some);
            }
            if old(graph)@.has_container(root) {
                let floor = old(graph)@.containers.len();
                assert(graph@.containers[root as int] == created.containers[root as int]);
                assert forall|k: int|
                    0 <= k < names.len() && (#[trigger] names[k]).0 != parent_key() && (forall|
                        j: int,
                    |
                        k < j < names.len() ==> (#[trigger] names[j]).0
                            != names[k].0) implies built_entry(
                    graph@,
                    names[k].0,
                    names[k].1,
                    root,
                    floor,
                ) by {
                    assert(built_entry(created, names[k].0, names[k].1, root, floor));
                    lemma_built_stays(created, graph@, names[k].0, names[k].1, root, floor);
                }
            }
        }
        r
    }

    /// The providers registered in the root container, by name.
    pub fn get_providers(&self, graph: &Graph) -> (r: Vec<(String, Registration)>)
        requires
            graph.wf(),
        ensures
            view_of(r@) == providers_of(graph@, self.root()),
    {
        match graph.container(self.container) {
            Some(root) => {
                let entries = root.providers();
                let mut out: Vec<(String, Registration)> = Vec::new();
                let mut i: usize = 0;
                while i < entries.len()
                    invariant
                        i <= entries.len(),
                        out.len() == i,
                        forall|j: int|
                            0 <= j < i ==> (#[trigger] out[j]).0@ == entries[j].0@ && out[j].1
                                == entries[j].1,
                    decreases entries.len() - i,
                {
                    out.push((entries[i].0.clone(), entries[i].1));
                    i += 1;
                }
                assert(view_of(out@) =~= view_of(entries@));
                out
            },
            None => {
                let out: Vec<(String, Registration)> = Vec::new();
                assert(view_of(out@) =~= Seq::empty());
                out
            },
        }
    }

    /// The first pass: makes the provider of every entry of `provider_schema`
    /// and registers it in `container`, or in the root container where none
    /// is given; see [`create_entries`]. Where it succeeds, the container
    /// holds what the entries declare; see [`built_entries`].
    pub fn create_providers(
        &self,
        graph: &mut Graph,
        provider_schema: &Vec<(String, SchemaValue)>,
        container: Option<ContainerId>,
    ) -> (r: Result<(), Error>)
        requires
            old(graph).wf(),
        ensures
            final(graph).wf(),
            (final(graph)@, r) == create_entries(
                old(graph)@,
                self.symbols(),
                entries_view(provider_schema@),
                match container {
                    Some(c) => c,
                    None => self.root(),
                },
                0,
            ),
            grown(
                old(graph)@,
                final(graph)@,
                match container {
                    Some(c) => c,
                    None => self.root(),
                },
            ),
            r is Ok ==> registers_names(
                final(graph)@,
                entries_view(provider_schema@),
                match container {
                    Some(c) => c,
                    None => self.root(),
                },
                provider_schema.len() as int,
            ),
            r is Ok && old(graph)@.has_container(
                match container {
                    Some(c) => c,
                    None => self.root(),
                },
            ) ==> built_entries(
                final(graph)@,
                entries_view(provider_schema@),
                match container {
                    Some(c) => c,
                    None => self.root(),
                },
                old(graph)@.containers.len(),
                provider_schema.len() as int,
            ),
        decreases provider_schema,
    {
        let target = match container {
            Some(c) => c,
            None => self.container,
        };
        let ghost node = entries_view(provider_schema@);
        let ghost start = graph@;
        let mut i: usize = 0;
        while i < provider_schema.len()
            invariant
                graph.wf(),
                i <= provider_schema.len(),
                node == entries_view(provider_schema@),
                start == old(graph)@,
                target == match container {
                    Some(c) => c,
                    None => self.root(),
                },
                grown(start, graph@, target),
                registers_names(graph@, node, target, i as int),
                start.has_container(target) ==> built_entries(
                    graph@,
                    node,
                    target,
                    start.containers.len(),
                    i as int,
                ),
                create_entries(start, self.symbols(), node, target, 0) == create_entries(
                    graph@,
                    self.symbols(),
                    node,
                    target,
                    i as int,
                ),
            decreases provider_schema.len() - i,
        {
            assert(node[i as int] == (provider_schema[i as int].0@, provider_schema[i as int].1@));
            let ghost before = graph@;
            let made = self.create_provider(
                graph,
                &provider_schema[i].0,
                &provider_schema[i].1,
                target,
            );
            proof {
                lemma_grown_further(start, before, graph@, target);
            }
            match made {
                Err(e) => {
                    return Err(e);
                },
                Ok(()) => {},
            }
            proof {
                assert forall|k: int|
                    0 <= k < i + 1 && k < node.len() && (#[trigger] node[k]).0
                        != parent_key() implies graph@.has_container(target)
                    && graph@.containers[target as int].provider(node[k].0) is Some by {
                    if k < i {
                        assert(before.containers[target as int].provider(node[k].0) is Some);
                    }
                }
                if start.has_container(target) {
                    let floor = start.containers.len();
                    assert forall|k: int|
                        0 <= k < i + 1 && k < node.len() && (#[trigger] node[k]).0 != parent_key()
                            && (forall|j: int|
                            k < j < i + 1 && j < node.len() ==> (#[trigger] node[j]).0
                                != node[k].0) implies built_entry(
                        graph@,
                        node[k].0,
                        node[k].1,
                        target,
                        floor,
                    ) by {
                        if k < i {
                            assert(node[i as int].0 != node[k].0);
                            assert(built_entry(before, node[k].0, node[k].1, target, floor));
                            lemma_built_stays(before, graph@, node[k].0, node[k].1, target, floor);
                        } else {
                            lemma_built_above(
                                graph@,
                                node[k].0,
                                node[k].1,
                                target,
                                before.containers.len(),
                                floor,
                            );
                        }
                    }
                }
            }
            i += 1;
        }
        Ok(())
    }

    /// The first pass over one entry; see [`create_entry`]. Where it succeeds,
    /// `target` holds what the entry declares, unless the name is `parent`;
    /// see [`built_entry`]. Other names of `target` keep what they held.
    pub fn create_provider(
        &self,
        graph: &mut Graph,
        name: &String,
        data: &SchemaValue,
        target: ContainerId,
    ) -> (r: Result<(), Error>)
        requires
            old(graph).wf(),
        ensures
            final(graph).wf(),
            (final(graph)@, r) == create_entry(old(graph)@, self.symbols(), name@, data@, target),
            grown(old(graph)@, final(graph)@, target),
            r is Ok && name@ != parent_key() ==> {
                &&& final(graph)@.has_container(target)
                &&& final(graph)@.containers[target as int].provider(name@) is Some
            },
            old(graph)@.has_container(target) ==> forall|n: Seq<char>|
                n != name@ ==> #[trigger] final(graph)@.containers[target as int].provider(n)
                    == old(graph)@.containers[target as int].provider(n),
            old(graph)@.has_container(target) && r is Ok && name@ != parent_key() ==> built_entry(
                final(graph)@,
                name@,
                data@,
                target,
                old(graph)@.containers.len(),
            ),
        decreases data,
    {
        let fields = match data {
            SchemaValue::Mapping(fields) => fields,
            _ => {
                return Err(Error::SchemaError(SchemaError::InvalidNode));
            },
        };
        proof {
            data.lemma_mapping_view();
        }
        let kind = match declared_kind(&self.resolver, fields) {
            Ok(kind) => kind,
            Err(e) => {
                return Err(e);
            },
        };
        let ghost g0 = graph@;
        let p = instantiate_provider(graph, kind);
        let ghost g1 = graph@;
        proof {
            graph.lemma_model_wf();
            assert(grown(g0, g1, target));
        }
        match graph.set_provider(target, name.clone(), p) {
            Err(e) => {
                return Err(e);
            },
            Ok(()) => {},
        }
        let ghost g2 = graph@;
        proof {
            let before = g1.containers[target as int];
            lemma_upsert(
                before.providers,
                name@,
                Registration { id: p, kind: g1.providers[p as int].kind() },
            );
            assert(g2.containers[target as int] == before.set_provider(
                name@,
                p,
                g1.providers[p as int].kind(),
            )->Ok_0);
            assert(grown(g1, g2, target));
            lemma_grown_further(g0, g1, g2, target);
            assert(g2.wrapped(p) == g1.wrapped(p));
            assert(name@ != parent_key() ==> g2.containers[target as int].provider(name@) is Some);
            if g0.has_container(target) {
                assert(g1.containers[target as int] == g0.containers[target as int]);
                assert forall|n: Seq<char>| n != name@ implies #[trigger] g2.containers[target as int].provider(
                    n,
                ) == g0.containers[target as int].provider(n) by {}
            }
        }
        match graph.wrapped(p) {
            Some(inner) => {
                let r = self.create_providers(graph, fields, Some(inner));
                proof {
                    let g3 = graph@;
                    assert(inner == g0.containers.len());
                    assert forall|c: int|
                        0 <= c < g0.containers.len() && c != target implies #[trigger] g3.containers[c]
                        == g0.containers[c] by {
                        assert(g3.containers[c] == g2.containers[c]);
                    }
                    if inner != target {
                        assert(g3.containers[target as int] == g2.containers[target as int]);
                    } else if name@ != parent_key() {
                        assert(g2.containers[inner as int].provider(name@) is Some);
                    }
                    assert(g3.wrapped(p) == g2.wrapped(p));
                    if g0.has_container(target) && r is Ok && name@ != parent_key() {
                        let nested = entries_view(fields@);
                        if declares_container(data@) {
                            assert forall|k: int|
                                0 <= k < nested.len() && (#[trigger] nested[k]).0 != parent_key()
                                    && last_under_name(nested, k) implies built_entry(
                                g3,
                                nested[k].0,
                                nested[k].1,
                                inner,
                                g0.containers.len(),
                            ) by {
                                lemma_built_above(
                                    g3,
                                    nested[k].0,
                                    nested[k].1,
                                    inner,
                                    g2.containers.len(),
                                    g0.containers.len(),
                                );
                            }
                        }
                    }
                }
                r
            },
            None => {
                proof {
                    assert(!declares_container(data@));
                }
                Ok(())
            },
        }
    }

    /// The second pass: resolves and attaches the arguments of the provider
    /// of every entry of `provider_schema`, looked up in `container`, or in
    /// the root container where none is given; see [`setup_entries`]. It
    /// leaves every container as it was.
    pub fn setup_injections(
        &self,
        graph: &mut Graph,
        provider_schema: &Vec<(String, SchemaValue)>,
        container: Option<ContainerId>,
    ) -> (r: Result<(), Error>)
        requires
            old(graph).wf(),
        ensures
            final(graph).wf(),
            kept(old(graph)@, final(graph)@),
            (final(graph)@, r) == setup_entries(
                old(graph)@,
                self.symbols(),
                self.root(),
                entries_view(provider_schema@),
                match container {
                    Some(c) => c,
                    None => self.root(),
                },
                0,
            ),
        decreases provider_schema,
    {
        let target = match container {
            Some(c) => c,
            None => self.container,
        };
        let ghost node = entries_view(provider_schema@);
        let ghost start = graph@;
        let mut i: usize = 0;
        while i < provider_schema.len()
            invariant
                graph.wf(),
                i <= provider_schema.len(),
                node == entries_view(provider_schema@),
                start == old(graph)@,
                target == match container {
                    Some(c) => c,
                    None => self.root(),
                },
                kept(start, graph@),
                setup_entries(start, self.symbols(), self.root(), node, target, 0)
                    == setup_entries(
                    graph@,
                    self.symbols(),
                    self.root(),
                    node,
                    target,
                    i as int,
                ),
            decreases provider_schema.len() - i,
        {
            assert(node[i as int] == (provider_schema[i as int].0@, provider_schema[i as int].1@));
            let ghost before = graph@;
            let wired = self.setup_provider(
                graph,
                &provider_schema[i].0,
                &provider_schema[i].1,
                target,
            );
            proof {
                lemma_kept_further(start, before, graph@);
            }
            match wired {
                Err(e) => {
                    return Err(e);
                },
                Ok(()) => {},
            }
            i += 1;
        }
        Ok(())
    }

    /// The second pass over one entry; see [`setup_entry`].
    pub fn setup_provider(
        &self,
        graph: &mut Graph,
        name: &String,
        data: &SchemaValue,
        target: ContainerId,
    ) -> (r: Result<(), Error>)
        requires
            old(graph).wf(),
        ensures
            final(graph).wf(),
            kept(old(graph)@, final(graph)@),
            (final(graph)@, r) == setup_entry(
                old(graph)@,
                self.symbols(),
                self.root(),
                name@,
                data@,
                target,
            ),
        decreases data,
    {
        let holder = match graph.container(target) {
            Some(holder) => holder,
            None => {
                return Err(Error::ProviderNotFound);
            },
        };
        let found = match holder.get_provider(name.as_str()) {
            Some(found) => found,
            None => {
                return Err(Error::ProviderNotFound);
            },
        };
        let fields = match data {
            SchemaValue::Mapping(fields) => fields,
            _ => {
                return Err(Error::SchemaError(SchemaError::InvalidNode));
            },
        };
        proof {
            data.lemma_mapping_view();
        }
        match attach_injections(graph, &self.resolver, self.container, found.id, fields) {
            Err(e) => {
                return Err(e);
            },
            Ok(()) => {},
        }
        let ghost attached = graph@;
        match graph.wrapped(found.id) {
            Some(inner) => {
                let r = self.setup_injections(graph, fields, Some(inner));
                proof {
                    lemma_kept_further(old(graph)@, attached, graph@);
                }
                r
            },
            None => Ok(()),
        }
    }
}

/// What [`build_schema`] does to a graph, and the registrations of the new
/// root container where it succeeds.
pub open spec fn build_model(g: GraphModel, r: ResolverModel, schema: Document) -> (
    GraphModel,
    Result<Seq<(Seq<char>, Registration)>, Error>,
) {
    let root = g.containers.len() as ContainerId;
    let (g1, processed) = process_schema(g.add_container(ProviderKind::Provider), r, schema, root);
    match processed {
        Ok(()) => (g1, Ok(providers_of(g1, root))),
        Err(e) => (g1, Err(e)),
    }
}

/// Builds the providers that `schema` declares in a new root container of
/// `graph`, wires them, and returns what the root container registers. What
/// the graph held before stays as it was. Where it succeeds, the root
/// container holds what the document declares, nested containers included;
/// see [`built_declared`].
pub fn build_schema(graph: &mut Graph, resolver: SymbolResolver, schema: SchemaValue) -> (r: Result<
    Vec<(String, Registration)>,
    Error,
>)
    requires
        old(graph).wf(),
    ensures
        final(graph).wf(),
        final(graph)@ == build_model(old(graph)@, resolver@, schema@).0,
        match r {
            Ok(found) => build_model(old(graph)@, resolver@, schema@).1 == Ok::<
                Seq<(Seq<char>, Registration)>,
                Error,
            >(view_of(found@)),
            Err(e) => build_model(old(graph)@, resolver@, schema@).1 == Err::<
                Seq<(Seq<char>, Registration)>,
                Error,
            >(e),
        },
        kept(old(graph)@, final(graph)@),
        r matches Ok(found) ==> returns_declared(view_of(found@), schema@),
        r is Ok ==> built_declared(
            final(graph)@,
            schema@,
            old(graph)@.containers.len() as ContainerId,
            old(graph)@.containers.len() + 1,
        ),
{
    let mut schema_processor = SchemaProcessorV1::new(graph, schema, resolver);
    let ghost with_root = graph@;
    let processed = schema_processor.process(graph);
    proof {
        let root = schema_processor.root();
        assert forall|c: int| 0 <= c < old(graph)@.containers.len() implies #[trigger] graph@.containers[c]
            == old(graph)@.containers[c] by {
            assert(with_root.containers[c] == old(graph)@.containers[c]);
        }
    }
    match processed {
        Err(e) => Err(e),
        Ok(()) => Ok(schema_processor.get_providers(graph)),
    }
}

/// Whether `found` holds an entry under the name of every entry that the
/// schema declares at its top level, but for the name `parent`.
pub open spec fn returns_declared(found: Seq<(Seq<char>, Registration)>, schema: Document) -> bool {
    match schema.get("container"@) {
        Some(Document::Mapping(node)) => forall|k: int|
            0 <= k < node.len() && (#[trigger] node[k]).0 != parent_key() ==> lookup(
                found,
                node[k].0,
            ) is Some,
        _ => false,
    }
}

/// The names of registrations, each with the identity that it registers.
pub open spec fn named_ids(entries: Seq<(Seq<char>, Registration)>) -> Seq<(Seq<char>, ProviderId)> {
    Seq::new(entries.len(), |i: int| (entries[i].0, entries[i].1.id))
}

/// What [`from_schema`] does to a graph, and how it ends.
pub open spec fn from_schema_model(
    g: GraphModel,
    container: ContainerId,
    r: ResolverModel,
    schema: Document,
) -> (GraphModel, Result<(), Error>) {
    let (g1, built) = build_model(g, r, schema);
    match built {
        Ok(found) => crate::graph::set_all(g1, container, named_ids(found), 0),
        Err(e) => (g1, Err(e)),
    }
}

/// Builds the providers that `schema` declares and registers those of its
/// top level in `container`, each under its name. Where it succeeds,
/// `container` registers a provider under the name of every entry that the
/// schema declares at its top level, but for the name `parent`.
pub fn from_schema(
    graph: &mut Graph,
    container: ContainerId,
    resolver: SymbolResolver,
    schema: SchemaValue,
) -> (r: Result<(), Error>)
    requires
        old(graph).wf(),
    ensures
        final(graph).wf(),
        (final(graph)@, r) == from_schema_model(old(graph)@, container, resolver@, schema@),
        r is Ok ==> registers_declared(final(graph)@, schema@, container),
{
    let ghost document = schema@;
    let found = match build_schema(graph, resolver, schema) {
        Ok(found) => found,
        Err(e) => {
            return Err(e);
        },
    };
    let mut providers: Vec<(String, ProviderId)> = Vec::new();
    let mut i: usize = 0;
    while i < found.len()
        invariant
            i <= found.len(),
            providers.len() == i,
            forall|j: int|
                0 <= j < i ==> (#[trigger] providers[j]).0@ == found[j].0@ && providers[j].1
                    == found[j].1.id,
        decreases found.len() - i,
    {
        providers.push((found[i].0.clone(), found[i].1.id));
        i += 1;
    }
    assert(view_of(providers@) =~= named_ids(view_of(found@)));
    let ghost names = view_of(providers@);
    let r = graph.set_providers(container, providers);
    proof {
        if r is Ok {
            let node = document.get("container"@)->Some_0->Mapping_0;
            assert forall|k: int|
                0 <= k < node.len() && (#[trigger] node[k]).0
                    != parent_key() implies graph@.has_container(container)
                && graph@.containers[container as int].provider(node[k].0) is Some by {
                let listed = view_of(found@);
                lemma_find(listed, node[k].0);
                let j = find(listed, node[k].0);
                assert(lookup(listed, node[k].0) is Some);
                assert(names[j].0 == node[k].0);
            }
        }
    }
    r
}

/// `done`, followed by the strings of `value` that are not cross-references,
/// in document order: the names that resolving `value` may import.
pub open spec fn names_in(value: Document, done: Seq<Seq<char>>) -> Seq<Seq<char>>
    decreases value, 0nat,
{
    match value {
        Document::Text(s) => if reference_prefix().is_prefix_of(s) {
            done
        } else {
            done.push(s)
        },
        Document::List(items) => names_in_list(items, 0, done),
        Document::Mapping(entries) => names_in_entries(entries, 0, done),
        _ => done,
    }
}

/// `done`, followed by the names in the elements of `items` from index `i` on.
pub open spec fn names_in_list(items: Seq<Document>, i: int, done: Seq<Seq<char>>) -> Seq<
    Seq<char>,
>
    decreases items, items.len() - i,
{
    if i < 0 || i >= items.len() {
        done
    } else {
        names_in_list(items, i + 1, names_in(items[i], done))
    }
}

/// `done`, followed by the names in the values of `entries` from index `i` on.
pub open spec fn names_in_entries(
    entries: Seq<(Seq<char>, Document)>,
    i: int,
    done: Seq<Seq<char>>,
) -> Seq<Seq<char>>
    decreases entries, entries.len() - i,
{
    if i < 0 || i >= entries.len() {
        done
    } else {
        names_in_entries(entries, i + 1, names_in(entries[i].1, done))
    }
}

/// Appends to `out` the names that resolving `value` may import; see [`names_in`].
pub fn collect_import_names(value: &SchemaValue, out: &mut Vec<String>)
    ensures
        views(final(out)@) == names_in(value@, views(old(out)@)),
    decreases value,
{
    match value {
        SchemaValue::Text(s) => {
            if reference_path(s.as_str()).is_none() {
                proof {
                    assert(views(out@.push(*s)) =~= views(out@).push(s@));
                }
                out.push(s.clone());
            }
        },
        SchemaValue::List(items) => {
            proof {
                value.lemma_list_view();
            }
            let mut i: usize = 0;
            while i < items.len()
                invariant
                    i <= items.len(),
                    decreases_to!(value => items),
                    names_in_list(list_view(items@), 0, views(old(out)@)) == names_in_list(
                        list_view(items@),
                        i as int,
                        views(out@),
                    ),
                decreases items.len() - i,
            {
                collect_import_names(&items[i], out);
                i += 1;
            }
        },
        SchemaValue::Mapping(entries) => {
            proof {
                value.lemma_mapping_view();
            }
            let mut i: usize = 0;
            while i < entries.len()
                invariant
                    i <= entries.len(),
                    decreases_to!(value => entries),
                    names_in_entries(entries_view(entries@), 0, views(old(out)@))
                        == names_in_entries(entries_view(entries@), i as int, views(out@)),
                decreases entries.len() - i,
            {
                collect_import_names(&entries[i].1, out);
                i += 1;
            }
        },
        _ => {},
    }
}

/// The names that resolving `value` may import, in document order.
pub fn import_names(value: &SchemaValue) -> (r: Vec<String>)
    ensures
        views(r@) == names_in(value@, Seq::empty()),
{
    let mut out: Vec<String> = Vec::new();
    assert(views(out@) =~= Seq::empty());
    collect_import_names(value, &mut out);
    out
}

} // verus!
