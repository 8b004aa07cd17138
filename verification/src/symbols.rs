//! Symbols: what dotted names stand for in the embedding runtime, and the
//! table that stands for its module loader.

use crate::document::HostRef;
use crate::errors::Error;
use crate::errors::ImportError;
use crate::errors::SchemaError;
use crate::providers::ProviderKind;
use crate::table::key_views;
use crate::table::lemma_view_of_keys;
use crate::table::lookup;
use crate::table::position;
use crate::table::put;
use crate::table::upsert;
use crate::table::view_of;
use crate::text::chars_of;
use crate::text::equals;
use crate::text::find_last;
use crate::text::last_index;
use crate::text::slice;
use vstd::prelude::*;
use vstd::string::StringExecFns;

verus! {

/// What a dotted name stands for in the embedding runtime.
#[derive(Clone, Copy, Debug, PartialEq, Eq)]
pub enum Symbol {
    /// A provider class.
    Class(ProviderKind),
    /// Any other value.
    Value(HostRef),
}

/// The mathematical content of a [`SymbolResolver`]: modules by name, and in
/// each module its members by name.
pub type ResolverModel = Seq<(Seq<char>, Seq<(Seq<char>, Symbol)>)>;

/// The name of the module against which a name without a dot is resolved.
pub open spec fn builtins() -> Seq<char> {
    "builtins"@
}

/// The member `member` of the module `module`.
pub open spec fn resolve_symbol(r: ResolverModel, module: Seq<char>, member: Seq<char>) -> Result<
    Symbol,
    ImportError,
> {
    match lookup(r, module) {
        None => Err(ImportError::ModuleNotFound),
        Some(members) => match lookup(members, member) {
            None => Err(ImportError::MemberNotFound),
            Some(symbol) => Ok(symbol),
        },
    }
}

/// The module and the member that the dotted name `name` names: the part
/// before its last dot and the part after it, and for a name without a dot
/// the built-in module and the name itself.
pub open spec fn import_target(name: Seq<char>) -> Result<(Seq<char>, Seq<char>), ImportError> {
    let dot = last_index(name, '.');
    if 0 <= dot < name.len() {
        Ok((name.take(dot), name.skip(dot + 1)))
    } else if name.len() > 0 {
        Ok((builtins(), name))
    } else {
        Err(ImportError::EmptyName)
    }
}

/// What the dotted name `name` stands for: the member that it names, in the
/// module that it names.
pub open spec fn imported_symbol(r: ResolverModel, name: Seq<char>) -> Result<Symbol, ImportError> {
    match import_target(name) {
        Ok((module, member)) => resolve_symbol(r, module, member),
        Err(e) => Err(e),
    }
}

/// The provider kind that a built-in class name stands for.
pub open spec fn builtin_provider_kind(name: Seq<char>) -> Option<ProviderKind> {
    if name == "Provider"@ {
        Some(ProviderKind::Provider)
    } else {
        None
    }
}

/// The provider kind that an imported class name stands for.
pub open spec fn imported_provider_kind(r: ResolverModel, name: Seq<char>) -> Result<
    ProviderKind,
    Error,
> {
    match imported_symbol(r, name) {
        Ok(Symbol::Class(kind)) => Ok(kind),
        Ok(Symbol::Value(_)) => Err(Error::SchemaError(SchemaError::NotAProviderClass)),
        Err(e) => Err(Error::SchemaError(SchemaError::ImportFailed(e))),
    }
}

/// The provider kind that a class name stands for: a built-in name first,
/// an imported one otherwise.
pub open spec fn provider_kind_named(r: ResolverModel, name: Seq<char>) -> Result<
    ProviderKind,
    Error,
> {
    match builtin_provider_kind(name) {
        Some(kind) => Ok(kind),
        None => imported_provider_kind(r, name),
    }
}

/// The content of the modules of a resolver.
pub open spec fn modules_view(modules: Seq<(String, Vec<(String, Symbol)>)>) -> ResolverModel {
    Seq::new(modules.len(), |i: int| (modules[i].0@, view_of(modules[i].1@)))
}

/// The symbols that dotted names can be resolved to. It stands for the
/// module loader of the embedding runtime.
#[derive(Debug)]
pub struct SymbolResolver {
    modules: Vec<(String, Vec<(String, Symbol)>)>,
}

impl View for SymbolResolver {
    type V = ResolverModel;

    closed spec fn view(&self) -> ResolverModel {
        modules_view(self.modules@)
    }
}

impl SymbolResolver {
    /// A resolver that knows no module.
    pub fn new() -> (r: Self)
        ensures
            r@ == Seq::<(Seq<char>, Seq<(Seq<char>, Symbol)>)>::empty(),
    {
        let r = SymbolResolver { modules: Vec::new() };
        assert(r@ =~= Seq::empty());
        r
    }

    /// Makes `member` of `module` stand for `symbol`.
    pub fn define(&mut self, module: &str, member: &str, symbol: Symbol)
        ensures
            final(self)@ == upsert(
                old(self)@,
                module@,
                upsert(
                    match lookup(old(self)@, module@) {
                        Some(members) => members,
                        None => Seq::empty(),
                    },
                    member@,
                    symbol,
                ),
            ),
    {
        proof {
            assert(crate::table::keys(self@) =~= key_views(self.modules@));
        }
        let i = position(&self.modules, module);
        if i < self.modules.len() {
            let ghost before = view_of(self.modules[i as int].1@);
            let mut entry = self.modules.remove(i);
            put(&mut entry.1, String::from_str(member), symbol);
            self.modules.insert(i, entry);
            proof {
                assert(self@ =~= old(self)@.update(
                    i as int,
                    (module@, upsert(before, member@, symbol)),
                ));
            }
        } else {
            let mut members: Vec<(String, Symbol)> = Vec::new();
            assert(view_of(members@) =~= Seq::empty());
            put(&mut members, String::from_str(member), symbol);
            self.modules.push((String::from_str(module), members));
            proof {
                assert(self@ =~= old(self)@.push(
                    (module@, upsert(Seq::empty(), member@, symbol)),
                ));
            }
        }
    }

    /// The member `member` of the module `module`.
    pub fn resolve(&self, module: &str, member: &str) -> (r: Result<Symbol, ImportError>)
        ensures
            r == resolve_symbol(self@, module@, member@),
    {
        proof {
            assert(crate::table::keys(self@) =~= key_views(self.modules@));
        }
        let i = position(&self.modules, module);
        if i >= self.modules.len() {
            return Err(ImportError::ModuleNotFound);
        }
        let members = &self.modules[i].1;
        proof {
            lemma_view_of_keys(members@);
        }
        let k = position(members, member);
        if k >= members.len() {
            return Err(ImportError::MemberNotFound);
        }
        Ok(members[k].1)
    }
}

/// The module and the member that the dotted name `string_name` names; see
/// [`import_target`].
pub fn split_import_name(string_name: &str) -> (r: Result<(String, String), ImportError>)
    ensures
        match r {
            Ok((module, member)) => import_target(string_name@) == Ok::<
                (Seq<char>, Seq<char>),
                ImportError,
            >((module@, member@)),
            Err(e) => import_target(string_name@) == Err::<(Seq<char>, Seq<char>), ImportError>(e),
        },
{
    let chars = chars_of(string_name);
    match find_last(&chars, '.') {
        Some(dot) => {
            let module_name = slice(string_name, 0, dot);
            let member_name = slice(string_name, dot + 1, chars.len());
            proof {
                assert(string_name@.take(dot as int) =~= string_name@.subrange(0, dot as int));
                assert(string_name@.skip(dot + 1) =~= string_name@.subrange(
                    dot + 1,
                    string_name@.len() as int,
                ));
            }
            Ok((module_name, member_name))
        },
        None => {
            if chars.len() > 0 {
                Ok((String::from_str("builtins"), String::from_str(string_name)))
            } else {
                Err(ImportError::EmptyName)
            }
        },
    }
}

/// What the dotted name `string_name` stands for; see [`imported_symbol`].
pub fn import_string(resolver: &SymbolResolver, string_name: &str) -> (r: Result<
    Symbol,
    ImportError,
>)
    ensures
        r == imported_symbol(resolver@, string_name@),
{
    match split_import_name(string_name) {
        Ok((module, member)) => resolver.resolve(module.as_str(), member.as_str()),
        Err(e) => Err(e),
    }
}

/// The provider kind that a built-in class name stands for.
pub fn fetch_provider_cls_from_std(provider_cls_name: &str) -> (r: Option<ProviderKind>)
    ensures
        r == builtin_provider_kind(provider_cls_name@),
{
    if equals(provider_cls_name, "Provider") {
        Some(ProviderKind::Provider)
    } else {
        None
    }
}

/// The provider kind that an imported class name stands for. A name that
/// stands for something else, or for nothing, is a schema error; the failed
/// import is attached to it.
pub fn import_provider_cls(resolver: &SymbolResolver, provider_cls_name: &str) -> (r: Result<
    ProviderKind,
    Error,
>)
    ensures
        r == imported_provider_kind(resolver@, provider_cls_name@),
{
    match import_string(resolver, provider_cls_name) {
        Ok(Symbol::Class(kind)) => Ok(kind),
        Ok(Symbol::Value(_)) => Err(Error::SchemaError(SchemaError::NotAProviderClass)),
        Err(e) => Err(Error::SchemaError(SchemaError::ImportFailed(e))),
    }
}

/// The provider kind that a class name stands for.
pub fn get_provider_cls(resolver: &SymbolResolver, provider_cls_name: &str) -> (r: Result<
    ProviderKind,
    Error,
>)
    ensures
        r == provider_kind_named(resolver@, provider_cls_name@),
{
    match fetch_provider_cls_from_std(provider_cls_name) {
        Some(kind) => Ok(kind),
        None => import_provider_cls(resolver, provider_cls_name),
    }
}

} // verus!
