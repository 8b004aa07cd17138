use inj::containers::Registration;
use inj::document::HostRef;
use inj::document::SchemaValue;
use inj::errors::Error;
use inj::errors::ImportError;
use inj::errors::SchemaError;
use inj::graph::Graph;
use inj::providers::Injection;
use inj::providers::ProviderKind;
use inj::providers::ProviderVariant;
use inj::schema::build_schema;
use inj::schema::declared_kind;
use inj::symbols::fetch_provider_cls_from_std;
use inj::schema::from_schema;
use inj::schema::import_names;
use inj::symbols::get_provider_cls;
use inj::symbols::import_provider_cls;
use inj::symbols::import_string;
use inj::symbols::split_import_name;
use inj::injections::instantiate_provider;
use inj::reference::is_str_starts_with_container;
use inj::reference::parse_reference;
use inj::reference::parse_step;
use inj::reference::reference_path;
use inj::injections::resolve_injection;
use inj::reference::resolve_provider;
use inj::schema::SchemaProcessorV1;
use inj::reference::Segment;
use inj::symbols::Symbol;
use inj::symbols::SymbolResolver;

fn text(s: &str) -> SchemaValue {
    SchemaValue::Text(s.to_string())
}

fn mapping(entries: Vec<(&str, SchemaValue)>) -> SchemaValue {
    SchemaValue::Mapping(entries.into_iter().map(|(k, v)| (k.to_string(), v)).collect())
}

fn fields(entries: Vec<(&str, SchemaValue)>) -> Vec<(String, SchemaValue)> {
    entries.into_iter().map(|(k, v)| (k.to_string(), v)).collect()
}

fn plain_entry() -> SchemaValue {
    mapping(vec![("provider", text("Provider"))])
}

fn resolver() -> SymbolResolver {
    let mut r = SymbolResolver::new();
    r.define("inj.providers", "Dependency", Symbol::Class(ProviderKind::Dependency));
    r.define("inj.providers", "Container", Symbol::Class(ProviderKind::Container));
    r.define("app.services", "Factory", Symbol::Class(ProviderKind::Custom(1)));
    r.define("app.services", "Mailer", Symbol::Value(HostRef(70)));
    r.define("builtins", "int", Symbol::Value(HostRef(1)));
    r.define("os", "path", Symbol::Value(HostRef(2)));
    r
}

fn registration(g: &Graph, container: usize, name: &str) -> Registration {
    g.container(container).unwrap().get_provider(name).unwrap()
}

#[test]
fn resolver_answers_what_was_defined() {
    let mut r = SymbolResolver::new();
    assert_eq!(r.resolve("m", "x"), Err(ImportError::ModuleNotFound));
    r.define("m", "x", Symbol::Value(HostRef(1)));
    r.define("n", "x", Symbol::Class(ProviderKind::Dependency));
    r.define("m", "y", Symbol::Value(HostRef(2)));
    assert_eq!(r.resolve("m", "x"), Ok(Symbol::Value(HostRef(1))));
    assert_eq!(r.resolve("m", "y"), Ok(Symbol::Value(HostRef(2))));
    assert_eq!(r.resolve("n", "x"), Ok(Symbol::Class(ProviderKind::Dependency)));
    assert_eq!(r.resolve("n", "y"), Err(ImportError::MemberNotFound));
    assert_eq!(r.resolve("o", "x"), Err(ImportError::ModuleNotFound));
    r.define("m", "x", Symbol::Value(HostRef(3)));
    assert_eq!(r.resolve("m", "x"), Ok(Symbol::Value(HostRef(3))));
    assert_eq!(r.resolve("m", "y"), Ok(Symbol::Value(HostRef(2))));
}

#[test]
fn import_string_splits_at_the_last_dot() {
    let r = resolver();
    assert_eq!(
        import_string(&r, "inj.providers.Dependency"),
        Ok(Symbol::Class(ProviderKind::Dependency))
    );
    assert_eq!(import_string(&r, "os.path"), Ok(Symbol::Value(HostRef(2))));
    assert_eq!(import_string(&r, "int"), Ok(Symbol::Value(HostRef(1))));
    assert_eq!(import_string(&r, ""), Err(ImportError::EmptyName));
    assert_eq!(import_string(&r, "float"), Err(ImportError::MemberNotFound));
    assert_eq!(import_string(&r, "os.sep"), Err(ImportError::MemberNotFound));
    assert_eq!(import_string(&r, "nowhere.thing"), Err(ImportError::ModuleNotFound));
    assert_eq!(import_string(&r, "inj.providers"), Err(ImportError::ModuleNotFound));
    assert_eq!(import_string(&r, "os."), Err(ImportError::MemberNotFound));
    assert_eq!(import_string(&r, ".path"), Err(ImportError::ModuleNotFound));
}

#[test]
fn bare_names_need_the_builtins_module() {
    let r = SymbolResolver::new();
    assert_eq!(import_string(&r, "int"), Err(ImportError::ModuleNotFound));
}

#[test]
fn provider_class_names() {
    let r = resolver();
    assert_eq!(fetch_provider_cls_from_std("Provider"), Some(ProviderKind::Provider));
    assert_eq!(fetch_provider_cls_from_std("provider"), None);
    assert_eq!(fetch_provider_cls_from_std("Dependency"), None);
    assert_eq!(fetch_provider_cls_from_std(""), None);
    assert_eq!(get_provider_cls(&r, "Provider"), Ok(ProviderKind::Provider));
    assert_eq!(get_provider_cls(&r, "app.services.Factory"), Ok(ProviderKind::Custom(1)));
    assert_eq!(import_provider_cls(&r, "app.services.Factory"), Ok(ProviderKind::Custom(1)));
    assert_eq!(
        import_provider_cls(&r, "app.services.Mailer"),
        Err(Error::SchemaError(SchemaError::NotAProviderClass))
    );
    assert_eq!(
        get_provider_cls(&r, "int"),
        Err(Error::SchemaError(SchemaError::NotAProviderClass))
    );
    assert_eq!(
        get_provider_cls(&r, "app.services.Missing"),
        Err(Error::SchemaError(SchemaError::ImportFailed(ImportError::MemberNotFound)))
    );
    assert_eq!(
        get_provider_cls(&r, "missing.Factory"),
        Err(Error::SchemaError(SchemaError::ImportFailed(ImportError::ModuleNotFound)))
    );
    assert_eq!(
        get_provider_cls(&r, ""),
        Err(Error::SchemaError(SchemaError::ImportFailed(ImportError::EmptyName)))
    );
    assert_eq!(
        import_provider_cls(&r, "Provider"),
        Err(Error::SchemaError(SchemaError::ImportFailed(ImportError::MemberNotFound)))
    );
}

#[test]
fn steps_of_a_path() {
    assert_eq!(parse_step("db"), Segment { name: "db".to_string(), invoke: false });
    assert_eq!(parse_step("db()"), Segment { name: "db".to_string(), invoke: true });
    assert_eq!(parse_step("db(1, 2)"), Segment { name: "db".to_string(), invoke: true });
    assert_eq!(parse_step("db(x)y"), Segment { name: "db".to_string(), invoke: true });
    assert_eq!(parse_step("db("), Segment { name: "db(".to_string(), invoke: false });
    assert_eq!(parse_step("db)"), Segment { name: "db)".to_string(), invoke: false });
    assert_eq!(parse_step(")db("), Segment { name: ")db(".to_string(), invoke: false });
    assert_eq!(parse_step("()"), Segment { name: "".to_string(), invoke: true });
    assert_eq!(parse_step(""), Segment { name: "".to_string(), invoke: false });
    assert_eq!(parse_step("d\u{e9}j\u{e0}()"), Segment { name: "d\u{e9}j\u{e0}".to_string(), invoke: true });
}

#[test]
fn paths_are_split_at_dots() {
    assert_eq!(
        parse_reference("a.b().c"),
        vec![
            Segment { name: "a".to_string(), invoke: false },
            Segment { name: "b".to_string(), invoke: true },
            Segment { name: "c".to_string(), invoke: false },
        ]
    );
    assert_eq!(parse_reference(""), vec![Segment { name: "".to_string(), invoke: false }]);
    assert_eq!(
        parse_reference("a."),
        vec![
            Segment { name: "a".to_string(), invoke: false },
            Segment { name: "".to_string(), invoke: false },
        ]
    );
    assert_eq!(
        parse_reference("f(x.y)"),
        vec![
            Segment { name: "f(x".to_string(), invoke: false },
            Segment { name: "y)".to_string(), invoke: false },
        ]
    );
}

#[test]
fn cross_references_are_strings_with_the_prefix() {
    assert!(is_str_starts_with_container(&text("container.db")));
    assert!(is_str_starts_with_container(&text("container.")));
    assert!(!is_str_starts_with_container(&text("container")));
    assert!(!is_str_starts_with_container(&text("Container.db")));
    assert!(!is_str_starts_with_container(&text(" container.db")));
    assert!(!is_str_starts_with_container(&text("")));
    assert!(!is_str_starts_with_container(&SchemaValue::Int(3)));
    assert!(!is_str_starts_with_container(&mapping(vec![("container.", SchemaValue::Null)])));
    assert_eq!(reference_path("container.db"), Some("db".to_string()));
    assert_eq!(reference_path("container.sub.inner()"), Some("sub.inner()".to_string()));
    assert_eq!(reference_path("container."), Some("".to_string()));
    assert_eq!(reference_path("container"), None);
    assert_eq!(reference_path("containers.db"), None);
    assert_eq!(reference_path(""), None);
}

#[test]
fn instantiating_each_kind() {
    let mut g = Graph::new();
    let p = instantiate_provider(&mut g, ProviderKind::Provider);
    let d = instantiate_provider(&mut g, ProviderKind::Dependency);
    let c = instantiate_provider(&mut g, ProviderKind::Container);
    let x = instantiate_provider(&mut g, ProviderKind::Custom(4));
    assert_eq!((p, d, c, x), (0, 1, 2, 3));
    assert_eq!(g.provider(p).unwrap().kind(), ProviderKind::Provider);
    assert_eq!(g.provider(d).unwrap().kind(), ProviderKind::Dependency);
    assert_eq!(g.provider(c).unwrap().kind(), ProviderKind::Container);
    assert_eq!(g.provider(x).unwrap().kind(), ProviderKind::Custom(4));
    assert_eq!(g.container_count(), 1);
    assert_eq!(g.wrapped(c), Some(0));
    assert!(g.container(0).unwrap().providers().is_empty());
    assert_eq!(g.container(0).unwrap().provider_type(), ProviderKind::Provider);
}

#[test]
fn schema_builds_nested_containers() {
    let schema = mapping(vec![(
        "container",
        mapping(vec![
            ("db", plain_entry()),
            ("sub", mapping(vec![("inner", plain_entry())])),
        ]),
    )]);
    let mut g = Graph::new();
    let found = build_schema(&mut g, SymbolResolver::new(), schema).unwrap();
    let names: Vec<&str> = found.iter().map(|e| e.0.as_str()).collect();
    assert_eq!(names, vec!["db", "sub"]);
    let db = found[0].1;
    let sub = found[1].1;
    assert_eq!(db.kind, ProviderKind::Provider);
    assert_eq!(sub.kind, ProviderKind::Container);
    assert_eq!(g.provider(db.id).unwrap().kind(), ProviderKind::Provider);
    let inner_container = g.wrapped(sub.id).unwrap();
    let inner = registration(&g, inner_container, "inner");
    assert_eq!(inner.kind, ProviderKind::Provider);
    assert_eq!(g.container(inner_container).unwrap().providers().len(), 1);
    assert_eq!(g.provider_count(), 3);
    assert_eq!(g.container_count(), 2);
}

#[test]
fn cross_reference_resolves_to_the_registered_provider() {
    let schema = mapping(vec![(
        "container",
        mapping(vec![
            ("db", plain_entry()),
            (
                "svc",
                mapping(vec![
                    ("provider", text("Provider")),
                    ("args", SchemaValue::List(vec![text("container.db")])),
                ]),
            ),
        ]),
    )]);
    let mut g = Graph::new();
    let mut processor = SchemaProcessorV1::new(&mut g, schema, SymbolResolver::new());
    assert_eq!(processor.process(&mut g), Ok(()));
    let root = processor.container();
    let db = registration(&g, root, "db");
    let svc = registration(&g, root, "svc");
    assert_eq!(g.provider(svc.id).unwrap().args(), &vec![Injection::Provider(db.id)]);
    assert!(g.provider(db.id).unwrap().args().is_empty());
    assert_eq!(processor.get_providers(&g), g.container(root).unwrap().providers().clone());
}

#[test]
fn reference_may_point_forward() {
    let schema = mapping(vec![(
        "container",
        mapping(vec![
            (
                "svc",
                mapping(vec![
                    ("provider", text("Provider")),
                    ("args", SchemaValue::List(vec![text("container.db")])),
                ]),
            ),
            ("db", plain_entry()),
        ]),
    )]);
    let mut g = Graph::new();
    let found = build_schema(&mut g, SymbolResolver::new(), schema).unwrap();
    assert_eq!(g.provider(found[0].1.id).unwrap().args(), &vec![Injection::Provider(found[1].1.id)]);
}

#[test]
fn missing_container_key_fails_before_anything_is_made() {
    let schema = mapping(vec![("providers", mapping(vec![("db", plain_entry())]))]);
    let mut g = Graph::new();
    let mut processor = SchemaProcessorV1::new(&mut g, schema, SymbolResolver::new());
    assert_eq!(g.container_count(), 1);
    assert_eq!(
        processor.process(&mut g),
        Err(Error::SchemaError(SchemaError::MissingContainer))
    );
    assert_eq!(g.provider_count(), 0);
    assert_eq!(g.container_count(), 1);
    assert!(processor.get_providers(&g).is_empty());

    let mut h = Graph::new();
    assert_eq!(
        build_schema(&mut h, SymbolResolver::new(), SchemaValue::Null),
        Err(Error::SchemaError(SchemaError::MissingContainer))
    );
    assert_eq!(h.provider_count(), 0);
    assert_eq!(
        build_schema(&mut h, SymbolResolver::new(), mapping(vec![])),
        Err(Error::SchemaError(SchemaError::MissingContainer))
    );
}

#[test]
fn container_key_must_hold_a_mapping() {
    let mut g = Graph::new();
    assert_eq!(
        build_schema(&mut g, SymbolResolver::new(), mapping(vec![("container", text("x"))])),
        Err(Error::SchemaError(SchemaError::InvalidNode))
    );
    assert_eq!(g.provider_count(), 0);
    assert_eq!(
        build_schema(&mut g, SymbolResolver::new(), mapping(vec![("container", mapping(vec![]))])),
        Ok(vec![])
    );
}

#[test]
fn entries_must_be_mappings() {
    let schema = mapping(vec![(
        "container",
        mapping(vec![("db", plain_entry()), ("bad", SchemaValue::Int(1)), ("late", plain_entry())]),
    )]);
    let mut g = Graph::new();
    let mut processor = SchemaProcessorV1::new(&mut g, schema, SymbolResolver::new());
    assert_eq!(processor.process(&mut g), Err(Error::SchemaError(SchemaError::InvalidNode)));
    let names: Vec<String> = processor.get_providers(&g).into_iter().map(|e| e.0).collect();
    assert_eq!(names, vec!["db".to_string()]);
    assert_eq!(g.provider_count(), 1);
}

#[test]
fn provider_class_must_be_a_string_that_names_a_provider_class() {
    let r = resolver();
    assert_eq!(
        declared_kind(&r, &fields(vec![("provider", SchemaValue::Int(1))])),
        Err(Error::SchemaError(SchemaError::InvalidNode))
    );
    assert_eq!(
        declared_kind(&r, &fields(vec![("provider", text("app.services.Mailer"))])),
        Err(Error::SchemaError(SchemaError::NotAProviderClass))
    );
    assert_eq!(
        declared_kind(&r, &fields(vec![("provider", text("app.services.Nothing"))])),
        Err(Error::SchemaError(SchemaError::ImportFailed(ImportError::MemberNotFound)))
    );
    assert_eq!(
        declared_kind(&r, &fields(vec![("provider", text("inj.providers.Dependency"))])),
        Ok(ProviderKind::Dependency)
    );
    assert_eq!(declared_kind(&r, &fields(vec![])), Ok(ProviderKind::Container));
    assert_eq!(
        declared_kind(&r, &fields(vec![("args", SchemaValue::List(vec![]))])),
        Ok(ProviderKind::Container)
    );
}

#[test]
fn failed_import_aborts_and_keeps_what_was_built() {
    let schema = mapping(vec![(
        "container",
        mapping(vec![
            ("db", plain_entry()),
            ("svc", mapping(vec![("provider", text("nowhere.Factory"))])),
        ]),
    )]);
    let mut g = Graph::new();
    let mut processor = SchemaProcessorV1::new(&mut g, schema, resolver());
    assert_eq!(
        processor.process(&mut g),
        Err(Error::SchemaError(SchemaError::ImportFailed(ImportError::ModuleNotFound)))
    );
    let names: Vec<String> = processor.get_providers(&g).into_iter().map(|e| e.0).collect();
    assert_eq!(names, vec!["db".to_string()]);
}

#[test]
fn imported_classes_become_providers_of_their_kind() {
    let schema = mapping(vec![(
        "container",
        mapping(vec![
            ("dep", mapping(vec![("provider", text("inj.providers.Dependency"))])),
            ("svc", mapping(vec![("provider", text("app.services.Factory"))])),
        ]),
    )]);
    let mut g = Graph::new();
    let found = build_schema(&mut g, resolver(), schema).unwrap();
    assert_eq!(found[0].1.kind, ProviderKind::Dependency);
    assert_eq!(found[1].1.kind, ProviderKind::Custom(1));
    let root = g.container(0).unwrap();
    assert_eq!(
        root.dependencies(),
        vec![("dep".to_string(), Registration { id: found[0].1.id, kind: ProviderKind::Dependency })]
    );
}

#[test]
fn references_walk_into_nested_containers() {
    let schema = mapping(vec![(
        "container",
        mapping(vec![
            ("sub", mapping(vec![("deep", mapping(vec![("leaf", plain_entry())]))])),
            (
                "svc",
                mapping(vec![
                    ("provider", text("Provider")),
                    (
                        "args",
                        SchemaValue::List(vec![
                            text("container.sub.deep.leaf"),
                            text("container.sub.deep.leaf()"),
                            text("container.sub().deep"),
                            text("container.sub"),
                        ]),
                    ),
                ]),
            ),
        ]),
    )]);
    let mut g = Graph::new();
    let found = build_schema(&mut g, SymbolResolver::new(), schema).unwrap();
    let sub = found[0].1.id;
    let svc = found[1].1.id;
    let deep = registration(&g, g.wrapped(sub).unwrap(), "deep").id;
    let leaf = registration(&g, g.wrapped(deep).unwrap(), "leaf").id;
    assert_eq!(
        g.provider(svc).unwrap().args(),
        &vec![
            Injection::Provider(leaf),
            Injection::Produced(leaf),
            Injection::Provider(deep),
            Injection::Provider(sub),
        ]
    );
}

#[test]
fn unresolvable_references_are_not_found() {
    let mut g = Graph::new();
    let root = g.add_container(ProviderKind::Provider);
    let db = g.add_provider(ProviderVariant::Plain);
    g.set_provider(root, "db".to_string(), db).unwrap();
    assert_eq!(resolve_provider(&g, root, "db"), Ok(Injection::Provider(db)));
    assert_eq!(resolve_provider(&g, root, "db()"), Ok(Injection::Produced(db)));
    assert_eq!(resolve_provider(&g, root, "cache"), Err(Error::ProviderNotFound));
    assert_eq!(resolve_provider(&g, root, ""), Err(Error::ProviderNotFound));
    assert_eq!(resolve_provider(&g, root, "db.inner"), Err(Error::ProviderNotFound));
    assert_eq!(resolve_provider(&g, root, "db().inner"), Err(Error::ProviderNotFound));
    assert_eq!(resolve_provider(&g, root, "db."), Err(Error::ProviderNotFound));
    assert_eq!(resolve_provider(&g, 5, "db"), Err(Error::ProviderNotFound));

    let schema = mapping(vec![(
        "container",
        mapping(vec![(
            "svc",
            mapping(vec![
                ("provider", text("Provider")),
                ("args", SchemaValue::List(vec![text("container.nothing")])),
            ]),
        )]),
    )]);
    let mut h = Graph::new();
    assert_eq!(build_schema(&mut h, SymbolResolver::new(), schema), Err(Error::ProviderNotFound));
    assert_eq!(h.provider_count(), 1);
}

#[test]
fn values_resolve_by_their_shape() {
    let mut g = Graph::new();
    let root = g.add_container(ProviderKind::Provider);
    let db = g.add_provider(ProviderVariant::Plain);
    g.set_provider(root, "db".to_string(), db).unwrap();
    let r = resolver();
    assert_eq!(
        resolve_injection(&mut g, &r, root, &text("container.db")),
        Ok(Injection::Provider(db))
    );
    assert_eq!(
        resolve_injection(&mut g, &r, root, &text("app.services.Mailer")),
        Ok(Injection::Host(HostRef(70)))
    );
    assert_eq!(
        resolve_injection(&mut g, &r, root, &text("app.services.Factory")),
        Ok(Injection::Class(ProviderKind::Custom(1)))
    );
    assert_eq!(resolve_injection(&mut g, &r, root, &text("int")), Ok(Injection::Host(HostRef(1))));
    assert_eq!(
        resolve_injection(&mut g, &r, root, &text("unknown")),
        Err(Error::SchemaError(SchemaError::ImportFailed(ImportError::MemberNotFound)))
    );
    assert_eq!(
        resolve_injection(&mut g, &r, root, &text("")),
        Err(Error::SchemaError(SchemaError::ImportFailed(ImportError::EmptyName)))
    );
    for literal in [
        SchemaValue::Null,
        SchemaValue::Bool(true),
        SchemaValue::Int(-4),
        SchemaValue::Opaque(HostRef(3)),
        SchemaValue::List(vec![text("container.db"), SchemaValue::Int(1)]),
    ] {
        assert_eq!(
            resolve_injection(&mut g, &r, root, &literal),
            Ok(Injection::Literal(literal.clone()))
        );
    }
    assert_eq!(g.provider_count(), 1);
}

#[test]
fn inline_provider_is_built_with_its_arguments() {
    let mut g = Graph::new();
    let root = g.add_container(ProviderKind::Provider);
    let db = g.add_provider(ProviderVariant::Plain);
    g.set_provider(root, "db".to_string(), db).unwrap();
    let r = resolver();
    let inline = mapping(vec![
        ("provider", text("app.services.Factory")),
        ("provides", text("app.services.Mailer")),
        (
            "args",
            SchemaValue::List(vec![
                text("container.db"),
                SchemaValue::Int(5),
                mapping(vec![("provider", text("Provider"))]),
            ]),
        ),
    ]);
    let made = resolve_injection(&mut g, &r, root, &inline).unwrap();
    let inner = db + 1;
    let outer = db + 2;
    assert_eq!(made, Injection::Provider(outer));
    assert_eq!(g.provider_count(), 3);
    let provider = g.provider(outer).unwrap();
    assert_eq!(provider.kind(), ProviderKind::Custom(1));
    assert_eq!(provider.provides(), Some(&Injection::Host(HostRef(70))));
    assert_eq!(
        provider.args(),
        &vec![
            Injection::Provider(db),
            Injection::Literal(SchemaValue::Int(5)),
            Injection::Provider(inner),
        ]
    );
    assert_eq!(g.provider(inner).unwrap().kind(), ProviderKind::Provider);
    assert!(g.container(root).unwrap().resolve_provider_name(provider).is_err());
}

#[test]
fn inline_provider_needs_a_class() {
    let mut g = Graph::new();
    let root = g.add_container(ProviderKind::Provider);
    let r = resolver();
    assert_eq!(
        resolve_injection(&mut g, &r, root, &mapping(vec![("args", SchemaValue::List(vec![]))])),
        Err(Error::SchemaError(SchemaError::InvalidNode))
    );
    assert_eq!(
        resolve_injection(
            &mut g,
            &r,
            root,
            &mapping(vec![("provider", text("Provider")), ("args", SchemaValue::Int(1))])
        ),
        Err(Error::SchemaError(SchemaError::InvalidNode))
    );
    assert_eq!(
        resolve_injection(
            &mut g,
            &r,
            root,
            &mapping(vec![
                ("provider", text("Provider")),
                ("provides", text("container.missing"))
            ])
        ),
        Err(Error::ProviderNotFound)
    );
    assert_eq!(g.provider_count(), 0);
}

#[test]
fn second_pass_attaches_provides_args_and_kwargs() {
    let schema = mapping(vec![(
        "container",
        mapping(vec![
            ("db", plain_entry()),
            (
                "svc",
                mapping(vec![
                    ("provider", text("app.services.Factory")),
                    ("provides", text("app.services.Mailer")),
                    ("args", SchemaValue::List(vec![SchemaValue::Int(1), text("container.db()")])),
                    (
                        "kwargs",
                        mapping(vec![
                            ("store", text("container.db")),
                            ("retries", SchemaValue::Int(3)),
                        ]),
                    ),
                ]),
            ),
            (
                "bare",
                mapping(vec![
                    ("provider", text("Provider")),
                    ("args", SchemaValue::List(vec![])),
                    ("kwargs", mapping(vec![])),
                ]),
            ),
        ]),
    )]);
    let mut g = Graph::new();
    let found = build_schema(&mut g, resolver(), schema).unwrap();
    let db = found[0].1.id;
    let svc = g.provider(found[1].1.id).unwrap();
    assert_eq!(svc.provides(), Some(&Injection::Host(HostRef(70))));
    assert_eq!(
        svc.args(),
        &vec![Injection::Literal(SchemaValue::Int(1)), Injection::Produced(db)]
    );
    assert_eq!(
        svc.kwargs(),
        &vec![
            ("store".to_string(), Injection::Provider(db)),
            ("retries".to_string(), Injection::Literal(SchemaValue::Int(3))),
        ]
    );
    let bare = g.provider(found[2].1.id).unwrap();
    assert!(bare.provides().is_none());
    assert!(bare.args().is_empty());
    assert!(bare.kwargs().is_empty());
    assert_eq!(g.related(found[1].1.id), Ok(vec![db, db]));
}

#[test]
fn malformed_arguments_are_refused_in_the_second_pass() {
    for (key, value) in [("args", SchemaValue::Int(1)), ("kwargs", SchemaValue::List(vec![]))] {
        let schema = mapping(vec![(
            "container",
            mapping(vec![("svc", mapping(vec![("provider", text("Provider")), (key, value)]))]),
        )]);
        let mut g = Graph::new();
        assert_eq!(
            build_schema(&mut g, SymbolResolver::new(), schema),
            Err(Error::SchemaError(SchemaError::InvalidNode))
        );
        assert_eq!(g.provider_count(), 1);
    }
}

#[test]
fn an_entry_named_parent_is_made_but_not_registered() {
    let schema = mapping(vec![("container", mapping(vec![("parent", plain_entry())]))]);
    let mut g = Graph::new();
    let mut processor = SchemaProcessorV1::new(&mut g, schema, SymbolResolver::new());
    assert_eq!(processor.process(&mut g), Err(Error::ProviderNotFound));
    assert!(processor.get_providers(&g).is_empty());
    assert_eq!(g.provider_count(), 1);
}

#[test]
fn passes_can_be_run_one_by_one() {
    let node = fields(vec![
        ("db", plain_entry()),
        (
            "svc",
            mapping(vec![
                ("provider", text("Provider")),
                ("args", SchemaValue::List(vec![text("container.db")])),
            ]),
        ),
    ]);
    let mut g = Graph::new();
    let processor = SchemaProcessorV1::new(&mut g, SchemaValue::Null, SymbolResolver::new());
    assert_eq!(processor.create_providers(&mut g, &node, None), Ok(()));
    let root = processor.container();
    let db = registration(&g, root, "db").id;
    let svc = registration(&g, root, "svc").id;
    assert!(g.provider(svc).unwrap().args().is_empty());
    assert_eq!(processor.setup_injections(&mut g, &node, None), Ok(()));
    assert_eq!(g.provider(svc).unwrap().args(), &vec![Injection::Provider(db)]);

    let other = g.add_container(ProviderKind::Provider);
    assert_eq!(processor.create_providers(&mut g, &node, Some(other)), Ok(()));
    assert_eq!(g.container(other).unwrap().providers().len(), 2);
    assert_eq!(processor.setup_injections(&mut g, &node, Some(9)), Err(Error::ProviderNotFound));
    assert_eq!(processor.create_providers(&mut g, &node, Some(9)), Err(Error::ProviderNotFound));
}

#[test]
fn from_schema_registers_the_top_level_providers() {
    let schema = mapping(vec![(
        "container",
        mapping(vec![
            ("db", plain_entry()),
            ("sub", mapping(vec![("inner", plain_entry())])),
        ]),
    )]);
    let mut g = Graph::new();
    let mine = g.add_container(ProviderKind::Provider);
    assert_eq!(from_schema(&mut g, mine, SymbolResolver::new(), schema), Ok(()));
    let names: Vec<&str> =
        g.container(mine).unwrap().providers().iter().map(|e| e.0.as_str()).collect();
    assert_eq!(names, vec!["db", "sub"]);
    let built_root = mine + 1;
    assert_eq!(
        g.container(mine).unwrap().providers(),
        g.container(built_root).unwrap().providers()
    );
}

#[test]
fn from_schema_respects_the_provider_type() {
    let schema = mapping(vec![(
        "container",
        mapping(vec![
            ("dep", mapping(vec![("provider", text("inj.providers.Dependency"))])),
            ("db", plain_entry()),
        ]),
    )]);
    let mut g = Graph::new();
    let strict = g.add_container(ProviderKind::Dependency);
    assert_eq!(from_schema(&mut g, strict, resolver(), schema), Err(Error::WrongProviderType));
    let names: Vec<&str> =
        g.container(strict).unwrap().providers().iter().map(|e| e.0.as_str()).collect();
    assert_eq!(names, vec!["dep"]);
    let missing = mapping(vec![]);
    assert_eq!(
        from_schema(&mut g, strict, resolver(), missing),
        Err(Error::SchemaError(SchemaError::MissingContainer))
    );
}

#[test]
fn explicit_container_class_wraps_a_new_container() {
    let schema = mapping(vec![(
        "container",
        mapping(vec![("sub", mapping(vec![("provider", text("inj.providers.Container"))]))]),
    )]);
    let mut g = Graph::new();
    let mut processor = SchemaProcessorV1::new(&mut g, schema, resolver());
    assert_eq!(processor.process(&mut g), Err(Error::SchemaError(SchemaError::InvalidNode)));
    let sub = registration(&g, processor.container(), "sub");
    assert_eq!(sub.kind, ProviderKind::Container);
    assert!(g.container(g.wrapped(sub.id).unwrap()).unwrap().providers().is_empty());
}

#[test]
fn import_names_name_a_module_and_a_member() {
    assert_eq!(
        split_import_name("package.module.ClassName"),
        Ok(("package.module".to_string(), "ClassName".to_string()))
    );
    assert_eq!(split_import_name("int"), Ok(("builtins".to_string(), "int".to_string())));
    assert_eq!(split_import_name("a."), Ok(("a".to_string(), "".to_string())));
    assert_eq!(split_import_name(".a"), Ok(("".to_string(), "a".to_string())));
    assert_eq!(split_import_name("."), Ok(("".to_string(), "".to_string())));
    assert_eq!(split_import_name(""), Err(ImportError::EmptyName));
}

#[test]
fn import_names_are_the_strings_that_are_not_references() {
    let schema = mapping(vec![(
        "container",
        mapping(vec![
            ("db", mapping(vec![("provider", text("app.Database"))])),
            (
                "svc",
                mapping(vec![
                    ("provider", text("Provider")),
                    ("provides", text("app.Service")),
                    (
                        "args",
                        SchemaValue::List(vec![
                            text("container.db"),
                            SchemaValue::Int(1),
                            text("app.Service"),
                            mapping(vec![("provider", text("app.Inline"))]),
                        ]),
                    ),
                    ("kwargs", mapping(vec![("container.key", text("container.db()"))])),
                ]),
            ),
        ]),
    )]);
    assert_eq!(
        import_names(&schema),
        vec![
            "app.Database".to_string(),
            "Provider".to_string(),
            "app.Service".to_string(),
            "app.Service".to_string(),
            "app.Inline".to_string(),
        ]
    );
    assert_eq!(import_names(&SchemaValue::Null), Vec::<String>::new());
    assert_eq!(import_names(&text("container.x")), Vec::<String>::new());
    assert_eq!(import_names(&text("x")), vec!["x".to_string()]);
}
