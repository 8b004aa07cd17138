use inj::document::HostRef;
use inj::document::SchemaValue;
use inj::errors::Error;
use inj::providers::Container;
use inj::providers::DependenciesContainer;
use inj::providers::Dependency;
use inj::providers::Injection;
use inj::providers::Provider;
use inj::providers::ProviderKind;
use inj::providers::ProviderVariant;

#[test]
fn new_provider_is_plain_and_not_overridden() {
    let p = Provider::new(7);
    assert_eq!(p.id(), 7);
    assert_eq!(p.kind(), ProviderKind::Provider);
    assert!(p.overridden().is_empty());
    assert_eq!(p.last_overriding(), None);
    assert!(p.provides().is_none());
    assert!(p.args().is_empty());
    assert!(p.kwargs().is_empty());
}

#[test]
fn provider_refuses_to_override_itself() {
    let mut p = Provider::new(3);
    assert_eq!(p.override_with(3), Err(Error::SelfOverrideError));
    assert!(p.overridden().is_empty());
    assert_eq!(p.last_overriding(), None);
}

#[test]
fn overridden_provider_still_refuses_itself() {
    let mut p = Provider::new(3);
    assert_eq!(p.override_with(4), Ok(()));
    assert_eq!(p.override_with(3), Err(Error::SelfOverrideError));
    assert_eq!(p.overridden(), &vec![4]);
}

#[test]
fn override_then_reset_restores_the_stack() {
    let mut p = Provider::new(0);
    assert_eq!(p.override_with(1), Ok(()));
    assert_eq!(p.overridden(), &vec![1]);
    assert_eq!(p.override_with(2), Ok(()));
    assert_eq!(p.overridden(), &vec![1, 2]);
    assert_eq!(p.last_overriding(), Some(2));
    assert_eq!(p.reset_last_overriding(), Ok(()));
    assert_eq!(p.overridden(), &vec![1]);
    assert_eq!(p.last_overriding(), Some(1));
    assert_eq!(p.reset_last_overriding(), Ok(()));
    assert!(p.overridden().is_empty());
    assert_eq!(p.last_overriding(), None);
}

#[test]
fn the_same_provider_may_override_twice() {
    let mut p = Provider::new(0);
    assert_eq!(p.override_with(1), Ok(()));
    assert_eq!(p.override_with(1), Ok(()));
    assert_eq!(p.overridden(), &vec![1, 1]);
}

#[test]
fn reset_last_overriding_fails_on_an_empty_stack() {
    let mut p = Provider::new(0);
    assert_eq!(p.reset_last_overriding(), Err(Error::NotOverriddenError));
    assert!(p.overridden().is_empty());
}

#[test]
fn reset_override_empties_any_stack() {
    let mut p = Provider::new(0);
    p.reset_override();
    assert!(p.overridden().is_empty());
    assert_eq!(p.last_overriding(), None);
    for other in 1..6 {
        assert_eq!(p.override_with(other), Ok(()));
    }
    assert_eq!(p.overridden().len(), 5);
    p.reset_override();
    assert!(p.overridden().is_empty());
    assert_eq!(p.last_overriding(), None);
    assert_eq!(p.reset_last_overriding(), Err(Error::NotOverriddenError));
}

#[test]
fn every_kind_satisfies_the_base_kind_and_itself_only() {
    let kinds = [
        ProviderKind::Provider,
        ProviderKind::Dependency,
        ProviderKind::DependenciesContainer,
        ProviderKind::Container,
        ProviderKind::Custom(1),
        ProviderKind::Custom(2),
    ];
    for a in kinds {
        for b in kinds {
            let expected = b == ProviderKind::Provider || a == b;
            assert_eq!(a.is_instance(b), expected, "{:?} as {:?}", a, b);
        }
    }
}

#[test]
fn dependency_kinds_are_the_two_dependency_variants() {
    assert!(ProviderKind::Dependency.is_dependency_kind());
    assert!(ProviderKind::DependenciesContainer.is_dependency_kind());
    assert!(!ProviderKind::Provider.is_dependency_kind());
    assert!(!ProviderKind::Container.is_dependency_kind());
    assert!(!ProviderKind::Custom(0).is_dependency_kind());
}

#[test]
fn variants_report_their_kind() {
    let dep = ProviderVariant::Dependency(Dependency::new(Some(HostRef(5)), None));
    assert_eq!(dep.kind(), ProviderKind::Dependency);
    let deps = ProviderVariant::DependenciesContainer(DependenciesContainer::new(vec![]));
    assert_eq!(deps.kind(), ProviderKind::DependenciesContainer);
    let nested = ProviderVariant::Container(Container::new(2));
    assert_eq!(nested.kind(), ProviderKind::Container);
    assert_eq!(ProviderVariant::Custom(9).kind(), ProviderKind::Custom(9));
    assert_eq!(ProviderVariant::Plain.kind(), ProviderKind::Provider);
}

#[test]
fn default_variant_of_each_kind() {
    match ProviderVariant::default_of(ProviderKind::Dependency, 0) {
        ProviderVariant::Dependency(d) => {
            assert_eq!(d.instance_of, None);
            assert_eq!(d.default, None);
        }
        other => panic!("unexpected variant {:?}", other),
    }
    match ProviderVariant::default_of(ProviderKind::Container, 4) {
        ProviderVariant::Container(c) => assert_eq!(c.container, 4),
        other => panic!("unexpected variant {:?}", other),
    }
    match ProviderVariant::default_of(ProviderKind::DependenciesContainer, 0) {
        ProviderVariant::DependenciesContainer(d) => assert!(d.providers.is_empty()),
        other => panic!("unexpected variant {:?}", other),
    }
    assert!(matches!(
        ProviderVariant::default_of(ProviderKind::Custom(3), 0),
        ProviderVariant::Custom(3)
    ));
    assert!(matches!(
        ProviderVariant::default_of(ProviderKind::Provider, 0),
        ProviderVariant::Plain
    ));
}

#[test]
fn arguments_are_added_incrementally() {
    let mut p = Provider::new(0);
    p.set_provides(Injection::Host(HostRef(1)));
    assert_eq!(p.provides(), Some(&Injection::Host(HostRef(1))));
    p.set_provides(Injection::Class(ProviderKind::Dependency));
    assert_eq!(p.provides(), Some(&Injection::Class(ProviderKind::Dependency)));
    p.add_args(vec![Injection::Provider(4)]);
    p.add_args(vec![Injection::Literal(SchemaValue::Int(2)), Injection::Produced(5)]);
    assert_eq!(
        p.args(),
        &vec![
            Injection::Provider(4),
            Injection::Literal(SchemaValue::Int(2)),
            Injection::Produced(5)
        ]
    );
    p.add_kwargs(vec![("a".to_string(), Injection::Provider(6))]);
    p.add_kwargs(vec![("b".to_string(), Injection::Host(HostRef(3)))]);
    assert_eq!(
        p.kwargs(),
        &vec![
            ("a".to_string(), Injection::Provider(6)),
            ("b".to_string(), Injection::Host(HostRef(3)))
        ]
    );
}

#[test]
fn targets_of_injections() {
    assert_eq!(Injection::Provider(3).target(), Some(3));
    assert_eq!(Injection::Produced(4).target(), Some(4));
    assert_eq!(Injection::Class(ProviderKind::Provider).target(), None);
    assert_eq!(Injection::Host(HostRef(1)).target(), None);
    assert_eq!(Injection::Literal(SchemaValue::Null).target(), None);
}

#[test]
fn referenced_lists_provides_then_args_then_kwargs_then_members() {
    let members = vec![("x".to_string(), 20usize), ("y".to_string(), 21usize)];
    let mut p = Provider::with_variant(
        0,
        ProviderVariant::DependenciesContainer(DependenciesContainer::new(members)),
    );
    p.set_provides(Injection::Produced(1));
    p.add_args(vec![
        Injection::Literal(SchemaValue::Bool(true)),
        Injection::Provider(2),
        Injection::Provider(3),
    ]);
    p.add_kwargs(vec![
        ("k".to_string(), Injection::Host(HostRef(0))),
        ("l".to_string(), Injection::Provider(4)),
    ]);
    assert_eq!(p.referenced(), vec![1, 2, 3, 4, 20, 21]);
    assert_eq!(Provider::new(9).referenced(), Vec::<usize>::new());
}

#[test]
fn cloned_injection_equals_its_source() {
    let nested = SchemaValue::List(vec![
        SchemaValue::Text("a".to_string()),
        SchemaValue::Mapping(vec![("k".to_string(), SchemaValue::Opaque(HostRef(8)))]),
    ]);
    let source = Injection::Literal(nested);
    assert_eq!(source.clone(), source);
    assert_eq!(Injection::Provider(1).clone(), Injection::Provider(1));
}
