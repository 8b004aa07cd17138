//! Construction arguments: what the values of a schema stand for, and the
//! inline providers that resolving them builds.

use crate::document::Document;
use crate::document::SchemaValue;
use crate::document::entries_view;
use crate::document::list_view;
use crate::errors::Error;
use crate::errors::SchemaError;
use crate::graph::Graph;
use crate::graph::GraphModel;
use crate::graph::kept;
use crate::graph::lemma_kept_further;
use crate::providers::ContainerId;
use crate::providers::Injection;
use crate::providers::InjectionModel;
use crate::providers::ProviderId;
use crate::providers::ProviderKind;
use crate::providers::ProviderVariant;
use crate::providers::VariantModel;
use crate::providers::injections_view;
use crate::providers::named_injections_view;
use crate::reference::reference_path;
use crate::reference::reference_prefix;
use crate::reference::resolve_provider;
use crate::reference::resolve_reference;
use crate::symbols::ResolverModel;
use crate::symbols::Symbol;
use crate::symbols::SymbolResolver;
use crate::symbols::get_provider_cls;
use crate::symbols::import_string;
use crate::symbols::imported_symbol;
use crate::symbols::provider_kind_named;
use crate::table::find;
use vstd::prelude::*;

verus! {

/// The graph with one more provider of `kind`, made without arguments, and
/// the identity of that provider. A container provider wraps a container of
/// its own, empty and new, which accepts every provider.
pub open spec fn instantiate(g: GraphModel, kind: ProviderKind) -> (GraphModel, ProviderId) {
    let p = g.providers.len() as ProviderId;
    if kind == ProviderKind::Container {
        let inner = g.containers.len() as ContainerId;
        (
            g.add_container(ProviderKind::Provider).add_provider(
                VariantModel::default_of(kind, inner),
            ),
            p,
        )
    } else {
        (g.add_provider(VariantModel::default_of(kind, 0)), p)
    }
}

/// What an imported symbol is as a construction argument.
pub open spec fn symbol_injection(symbol: Symbol) -> InjectionModel {
    match symbol {
        Symbol::Class(kind) => InjectionModel::Class(kind),
        Symbol::Value(h) => InjectionModel::Host(h),
    }
}

/// The construction argument that a schema value stands for, and the graph
/// after resolving it.
///
/// A string with the cross-reference prefix stands for the provider that its
/// path leads to from `root`. Any other string is imported. A mapping is an
/// inline provider, which is built and added to the graph. Every other value
/// stands for itself.
pub open spec fn resolve_value(
    g: GraphModel,
    r: ResolverModel,
    root: ContainerId,
    value: Document,
) -> (GraphModel, Result<InjectionModel, Error>)
    decreases value, 0nat,
{
    match value {
        Document::Text(s) => if reference_prefix().is_prefix_of(s) {
            (g, resolve_reference(g, root, s.skip(reference_prefix().len() as int)))
        } else {
            match imported_symbol(r, s) {
                Ok(symbol) => (g, Ok(symbol_injection(symbol))),
                Err(e) => (g, Err(Error::SchemaError(SchemaError::ImportFailed(e)))),
            }
        },
        Document::Mapping(fields) => resolve_inline(g, r, root, fields),
        other => (g, Ok(InjectionModel::Literal(other))),
    }
}

/// The inline provider that the fields of a mapping describe, and the graph
/// with that provider in it. The class is read from `provider`; what the
/// provider produces from `provides` and its positional arguments from
/// `args`, where the mapping has them. They are resolved first, in that
/// order; then the provider is made.
pub open spec fn resolve_inline(
    g: GraphModel,
    r: ResolverModel,
    root: ContainerId,
    fields: Seq<(Seq<char>, Document)>,
) -> (GraphModel, Result<InjectionModel, Error>)
    decreases fields, 2nat,
{
    let k = find(fields, "provider"@);
    if !(0 <= k < fields.len()) {
        (g, Err(Error::SchemaError(SchemaError::InvalidNode)))
    } else {
        match fields[k].1 {
            Document::Text(cls) => match provider_kind_named(r, cls) {
                Err(e) => (g, Err(e)),
                Ok(kind) => {
                    let (g1, provides) = resolve_optional(g, r, root, fields);
                    match provides {
                        Err(e) => (g1, Err(e)),
                        Ok(provides) => {
                            let (g2, args) = resolve_args(g1, r, root, fields);
                            match args {
                                Err(e) => (g2, Err(e)),
                                Ok(args) => {
                                    let (g3, p) = instantiate(g2, kind);
                                    let made = g3.providers[p as int];
                                    let with_provides = match provides {
                                        Some(x) => made.set_provides(x),
                                        None => made,
                                    };
                                    (
                                        g3.with_provider(with_provides.add_args(args)),
                                        Ok(InjectionModel::Provider(p)),
                                    )
                                },
                            }
                        },
                    }
                },
            },
            _ => (g, Err(Error::SchemaError(SchemaError::InvalidNode))),
        }
    }
}

/// What the field `provides` of a mapping stands for, where the mapping has it.
pub open spec fn resolve_optional(
    g: GraphModel,
    r: ResolverModel,
    root: ContainerId,
    fields: Seq<(Seq<char>, Document)>,
) -> (GraphModel, Result<Option<InjectionModel>, Error>)
    decreases fields, 1nat,
{
    let k = find(fields, "provides"@);
    if 0 <= k < fields.len() {
        let (g1, found) = resolve_value(g, r, root, fields[k].1);
        match found {
            Ok(x) => (g1, Ok(Some(x))),
            Err(e) => (g1, Err(e)),
        }
    } else {
        (g, Ok(None))
    }
}

/// What the elements of the field `args` of a mapping stand for, in order;
/// nothing where the mapping has no such field.
pub open spec fn resolve_args(
    g: GraphModel,
    r: ResolverModel,
    root: ContainerId,
    fields: Seq<(Seq<char>, Document)>,
) -> (GraphModel, Result<Seq<InjectionModel>, Error>)
    decreases fields, 1nat,
{
    let k = find(fields, "args"@);
    if 0 <= k < fields.len() {
        match fields[k].1 {
            Document::List(items) => resolve_list(g, r, root, items, 0, Seq::empty()),
            _ => (g, Err(Error::SchemaError(SchemaError::InvalidNode))),
        }
    } else {
        (g, Ok(Seq::empty()))
    }
}

/// What the elements of the field `kwargs` of a mapping stand for, by name
/// and in order; nothing where the mapping has no such field.
pub open spec fn resolve_kwargs(
    g: GraphModel,
    r: ResolverModel,
    root: ContainerId,
    fields: Seq<(Seq<char>, Document)>,
) -> (GraphModel, Result<Seq<(Seq<char>, InjectionModel)>, Error>)
    decreases fields, 1nat,
{
    let k = find(fields, "kwargs"@);
    if 0 <= k < fields.len() {
        match fields[k].1 {
            Document::Mapping(entries) => resolve_named(g, r, root, entries, 0, Seq::empty()),
            _ => (g, Err(Error::SchemaError(SchemaError::InvalidNode))),
        }
    } else {
        (g, Ok(Seq::empty()))
    }
}

/// `done`, followed by what the elements of `items` from index `i` on stand
/// for, in order; resolving stops at the first element that fails.
pub open spec fn resolve_list(
    g: GraphModel,
    r: ResolverModel,
    root: ContainerId,
    items: Seq<Document>,
    i: int,
    done: Seq<InjectionModel>,
) -> (GraphModel, Result<Seq<InjectionModel>, Error>)
    decreases items, items.len() - i,
{
    if i < 0 || i >= items.len() {
        (g, Ok(done))
    } else {
        let (g1, found) = resolve_value(g, r, root, items[i]);
        match found {
            Ok(x) => resolve_list(g1, r, root, items, i + 1, done.push(x)),
            Err(e) => (g1, Err(e)),
        }
    }
}

/// `done`, followed by what the values of `entries` from index `i` on stand
/// for, each under its name, in order; resolving stops at the first value
/// that fails.
pub open spec fn resolve_named(
    g: GraphModel,
    r: ResolverModel,
    root: ContainerId,
    entries: Seq<(Seq<char>, Document)>,
    i: int,
    done: Seq<(Seq<char>, InjectionModel)>,
) -> (GraphModel, Result<Seq<(Seq<char>, InjectionModel)>, Error>)
    decreases entries, entries.len() - i,
{
    if i < 0 || i >= entries.len() {
        (g, Ok(done))
    } else {
        let (g1, found) = resolve_value(g, r, root, entries[i].1);
        match found {
            Ok(x) => resolve_named(g1, r, root, entries, i + 1, done.push((entries[i].0, x))),
            Err(e) => (g1, Err(e)),
        }
    }
}

/// Whether an outcome has the content `m`.
pub open spec fn same_injection(
    r: Result<Injection, Error>,
    m: Result<InjectionModel, Error>,
) -> bool {
    match r {
        Ok(x) => m == Ok::<InjectionModel, Error>(x@),
        Err(e) => m == Err::<InjectionModel, Error>(e),
    }
}

/// Whether an outcome has the content `m`.
pub open spec fn same_optional(
    r: Result<Option<Injection>, Error>,
    m: Result<Option<InjectionModel>, Error>,
) -> bool {
    match r {
        Ok(Some(x)) => m == Ok::<Option<InjectionModel>, Error>(Some(x@)),
        Ok(None) => m == Ok::<Option<InjectionModel>, Error>(None),
        Err(e) => m == Err::<Option<InjectionModel>, Error>(e),
    }
}

/// Whether an outcome has the content `m`.
pub open spec fn same_injections(
    r: Result<Vec<Injection>, Error>,
    m: Result<Seq<InjectionModel>, Error>,
) -> bool {
    match r {
        Ok(x) => m == Ok::<Seq<InjectionModel>, Error>(injections_view(x@)),
        Err(e) => m == Err::<Seq<InjectionModel>, Error>(e),
    }
}

/// Whether an outcome has the content `m`.
pub open spec fn same_named_injections(
    r: Result<Vec<(String, Injection)>, Error>,
    m: Result<Seq<(Seq<char>, InjectionModel)>, Error>,
) -> bool {
    match r {
        Ok(x) => m == Ok::<Seq<(Seq<char>, InjectionModel)>, Error>(named_injections_view(x@)),
        Err(e) => m == Err::<Seq<(Seq<char>, InjectionModel)>, Error>(e),
    }
}

/// Adds a provider of `kind`, made without arguments, and returns its
/// identity; see [`instantiate`].
pub fn instantiate_provider(graph: &mut Graph, kind: ProviderKind) -> (p: ProviderId)
    requires
        old(graph).wf(),
    ensures
        final(graph).wf(),
        kept(old(graph)@, final(graph)@),
        (final(graph)@, p) == instantiate(old(graph)@, kind),
        p == old(graph)@.providers.len(),
        match final(graph)@.wrapped(p) {
            Some(inner) => kind == ProviderKind::Container && inner == old(
                graph,
            )@.containers.len(),
            None => kind != ProviderKind::Container,
        },
{
    if kind == ProviderKind::Container {
        let inner = graph.add_container(ProviderKind::Provider);
        graph.add_provider(ProviderVariant::default_of(kind, inner))
    } else {
        graph.add_provider(ProviderVariant::default_of(kind, 0))
    }
}

/// Resolves one schema value to a construction argument; see [`resolve_value`].
pub fn resolve_injection(
    graph: &mut Graph,
    resolver: &SymbolResolver,
    root: ContainerId,
    arg: &SchemaValue,
) -> (r: Result<Injection, Error>)
    requires
        old(graph).wf(),
    ensures
        final(graph).wf(),
        kept(old(graph)@, final(graph)@),
        final(graph)@ == resolve_value(old(graph)@, resolver@, root, arg@).0,
        same_injection(r, resolve_value(old(graph)@, resolver@, root, arg@).1),
    decreases arg, 0nat,
{
    match arg {
        SchemaValue::Text(s) => match reference_path(s.as_str()) {
            Some(path) => resolve_provider(graph, root, path.as_str()),
            None => match import_string(resolver, s.as_str()) {
                Ok(Symbol::Class(kind)) => Ok(Injection::Class(kind)),
                Ok(Symbol::Value(h)) => Ok(Injection::Host(h)),
                Err(e) => Err(Error::SchemaError(SchemaError::ImportFailed(e))),
            },
        },
        SchemaValue::Mapping(fields) => {
            proof {
                arg.lemma_mapping_view();
            }
            resolve_inline_provider(graph, resolver, root, fields)
        },
        _ => Ok(Injection::Literal(arg.clone())),
    }
}

/// Builds the inline provider that the fields of a mapping describe; see
/// [`resolve_inline`].
pub fn resolve_inline_provider(
    graph: &mut Graph,
    resolver: &SymbolResolver,
    root: ContainerId,
    fields: &Vec<(String, SchemaValue)>,
) -> (r: Result<Injection, Error>)
    requires
        old(graph).wf(),
    ensures
        final(graph).wf(),
        kept(old(graph)@, final(graph)@),
        final(graph)@ == resolve_inline(old(graph)@, resolver@, root, entries_view(fields@)).0,
        same_injection(r, resolve_inline(old(graph)@, resolver@, root, entries_view(fields@)).1),
    decreases fields, 2nat,
{
    let k = SchemaValue::position(fields, "provider");
    if k >= fields.len() {
        return Err(Error::SchemaError(SchemaError::InvalidNode));
    }
    let kind = match &fields[k].1 {
        SchemaValue::Text(cls) => match get_provider_cls(resolver, cls.as_str()) {
            Ok(kind) => kind,
            Err(e) => {
                return Err(e);
            },
        },
        _ => {
            return Err(Error::SchemaError(SchemaError::InvalidNode));
        },
    };
    let provides = match resolve_provides(graph, resolver, root, fields) {
        Ok(provides) => provides,
        Err(e) => {
            return Err(e);
        },
    };
    let ghost g1 = graph@;
    let made_args = resolve_positional(graph, resolver, root, fields);
    proof {
        lemma_kept_further(old(graph)@, g1, graph@);
    }
    let args = match made_args {
        Ok(args) => args,
        Err(e) => {
            return Err(e);
        },
    };
    let ghost g2 = graph@;
    let p = instantiate_provider(graph, kind);
    let ghost g3 = graph@;
    proof {
        lemma_kept_further(old(graph)@, g2, g3);
    }
    let ghost made = g3.providers[p as int];
    let ghost wanted = match &provides {
        Some(x) => made.set_provides(x@),
        None => made,
    };
    assert(made.id == p && g3.has_provider(p));
    match provides {
        Some(x) => {
            let set = graph.set_provides(p, x);
            assert(set is Ok);
        },
        None => {},
    }
    assert(graph@.providers[p as int] == wanted);
    assert(graph@.providers =~= g3.providers.update(p as int, wanted));
    assert(graph@.containers == g3.containers);
    let ghost arguments = injections_view(args@);
    let added = graph.add_args(p, args);
    proof {
        assert(added is Ok);
        assert(graph@.providers =~= g3.with_provider(wanted.add_args(arguments)).providers);
        assert(graph@ == g3.with_provider(wanted.add_args(arguments)));
        assert forall|q: ProviderId| g3.has_provider(q) implies #[trigger] graph@.wrapped(q)
            == g3.wrapped(q) by {
            if q != p {
                assert(graph@.providers[q as int] == g3.providers[q as int]);
            }
        }
        lemma_kept_further(old(graph)@, g3, graph@);
    }
    Ok(Injection::Provider(p))
}

/// Resolves the field `provides` of a mapping, where the mapping has it; see
/// [`resolve_optional`].
pub fn resolve_provides(
    graph: &mut Graph,
    resolver: &SymbolResolver,
    root: ContainerId,
    fields: &Vec<(String, SchemaValue)>,
) -> (r: Result<Option<Injection>, Error>)
    requires
        old(graph).wf(),
    ensures
        final(graph).wf(),
        kept(old(graph)@, final(graph)@),
        final(graph)@ == resolve_optional(old(graph)@, resolver@, root, entries_view(fields@)).0,
        same_optional(r, resolve_optional(old(graph)@, resolver@, root, entries_view(fields@)).1),
    decreases fields, 1nat,
{
    let k = SchemaValue::position(fields, "provides");
    if k < fields.len() {
        match resolve_injection(graph, resolver, root, &fields[k].1) {
            Ok(x) => Ok(Some(x)),
            Err(e) => Err(e),
        }
    } else {
        Ok(None)
    }
}

/// Resolves the elements of the field `args` of a mapping; see [`resolve_args`].
pub fn resolve_positional(
    graph: &mut Graph,
    resolver: &SymbolResolver,
    root: ContainerId,
    fields: &Vec<(String, SchemaValue)>,
) -> (r: Result<Vec<Injection>, Error>)
    requires
        old(graph).wf(),
    ensures
        final(graph).wf(),
        kept(old(graph)@, final(graph)@),
        final(graph)@ == resolve_args(old(graph)@, resolver@, root, entries_view(fields@)).0,
        same_injections(r, resolve_args(old(graph)@, resolver@, root, entries_view(fields@)).1),
    decreases fields, 1nat,
{
    let k = SchemaValue::position(fields, "args");
    if k >= fields.len() {
        let none: Vec<Injection> = Vec::new();
        assert(injections_view(none@) =~= Seq::empty());
        return Ok(none);
    }
    let items = match &fields[k].1 {
        SchemaValue::List(items) => items,
        _ => {
            return Err(Error::SchemaError(SchemaError::InvalidNode));
        },
    };
    proof {
        fields[k as int].1.lemma_list_view();
    }
    let ghost start = graph@;
    let ghost documents = list_view(items@);
    let mut out: Vec<Injection> = Vec::new();
    let mut i: usize = 0;
    assert(injections_view(out@) =~= Seq::empty());
    while i < items.len()
        invariant
            graph.wf(),
            i <= items.len(),
            documents == list_view(items@),
            decreases_to!(fields => items),
            kept(old(graph)@, graph@),
            resolve_args(old(graph)@, resolver@, root, entries_view(fields@)) == resolve_list(
                start,
                resolver@,
                root,
                documents,
                0,
                Seq::empty(),
            ),
            resolve_list(start, resolver@, root, documents, 0, Seq::empty()) == resolve_list(
                graph@,
                resolver@,
                root,
                documents,
                i as int,
                injections_view(out@),
            ),
        decreases items.len() - i,
    {
        let ghost before = graph@;
        let found = resolve_injection(graph, resolver, root, &items[i]);
        proof {
            lemma_kept_further(old(graph)@, before, graph@);
        }
        match found {
            Ok(x) => {
                assert(injections_view(out@.push(x)) =~= injections_view(out@).push(x@));
                out.push(x);
            },
            Err(e) => {
                return Err(e);
            },
        }
        i += 1;
    }
    Ok(out)
}

/// Resolves the values of the field `kwargs` of a mapping; see [`resolve_kwargs`].
pub fn resolve_keywords(
    graph: &mut Graph,
    resolver: &SymbolResolver,
    root: ContainerId,
    fields: &Vec<(String, SchemaValue)>,
) -> (r: Result<Vec<(String, Injection)>, Error>)
    requires
        old(graph).wf(),
    ensures
        final(graph).wf(),
        kept(old(graph)@, final(graph)@),
        final(graph)@ == resolve_kwargs(old(graph)@, resolver@, root, entries_view(fields@)).0,
        same_named_injections(
            r,
            resolve_kwargs(old(graph)@, resolver@, root, entries_view(fields@)).1,
        ),
{
    let k = SchemaValue::position(fields, "kwargs");
    if k >= fields.len() {
        let none: Vec<(String, Injection)> = Vec::new();
        assert(named_injections_view(none@) =~= Seq::empty());
        return Ok(none);
    }
    let entries = match &fields[k].1 {
        SchemaValue::Mapping(entries) => entries,
        _ => {
            return Err(Error::SchemaError(SchemaError::InvalidNode));
        },
    };
    proof {
        fields[k as int].1.lemma_mapping_view();
    }
    let ghost start = graph@;
    let ghost documents = entries_view(entries@);
    let mut out: Vec<(String, Injection)> = Vec::new();
    let mut i: usize = 0;
    assert(named_injections_view(out@) =~= Seq::empty());
    while i < entries.len()
        invariant
            graph.wf(),
            i <= entries.len(),
            documents == entries_view(entries@),
            kept(old(graph)@, graph@),
            resolve_kwargs(old(graph)@, resolver@, root, entries_view(fields@)) == resolve_named(
                start,
                resolver@,
                root,
                documents,
                0,
                Seq::empty(),
            ),
            resolve_named(start, resolver@, root, documents, 0, Seq::empty()) == resolve_named(
                graph@,
                resolver@,
                root,
                documents,
                i as int,
                named_injections_view(out@),
            ),
        decreases entries.len() - i,
    {
        let ghost before = graph@;
        let found = resolve_injection(graph, resolver, root, &entries[i].1);
        proof {
            lemma_kept_further(old(graph)@, before, graph@);
        }
        match found {
            Ok(x) => {
                let name = entries[i].0.clone();
                assert(named_injections_view(out@.push((name, x))) =~= named_injections_view(
                    out@,
                ).push((name@, x@)));
                out.push((name, x));
            },
            Err(e) => {
                return Err(e);
            },
        }
        i += 1;
    }
    Ok(out)
}

} // verus!
