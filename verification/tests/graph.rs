use inj::containers::Registration;
use inj::document::HostRef;
use inj::errors::Error;
use inj::graph::Graph;
use inj::providers::Container;
use inj::providers::DependenciesContainer;
use inj::providers::Dependency;
use inj::providers::Injection;
use inj::providers::ProviderKind;
use inj::providers::ProviderVariant;

fn plain(g: &mut Graph) -> usize {
    g.add_provider(ProviderVariant::Plain)
}

#[test]
fn identities_are_indices_in_order_of_creation() {
    let mut g = Graph::new();
    assert_eq!(g.provider_count(), 0);
    assert_eq!(g.container_count(), 0);
    assert_eq!(plain(&mut g), 0);
    assert_eq!(g.add_provider(ProviderVariant::Dependency(Dependency::new(None, None))), 1);
    assert_eq!(g.add_container(ProviderKind::Provider), 0);
    assert_eq!(g.add_container(ProviderKind::Dependency), 1);
    assert_eq!(g.provider_count(), 2);
    assert_eq!(g.container_count(), 2);
    assert_eq!(g.provider(0).unwrap().id(), 0);
    assert_eq!(g.provider(1).unwrap().id(), 1);
    assert_eq!(g.provider(1).unwrap().kind(), ProviderKind::Dependency);
    assert!(g.provider(2).is_none());
    assert_eq!(g.container(1).unwrap().id(), 1);
    assert_eq!(g.container(1).unwrap().provider_type(), ProviderKind::Dependency);
    assert!(g.container(2).is_none());
}

#[test]
fn overriding_through_the_graph() {
    let mut g = Graph::new();
    let p = plain(&mut g);
    let q = plain(&mut g);
    assert_eq!(g.override_provider(p, p), Err(Error::SelfOverrideError));
    assert_eq!(g.override_provider(p, 7), Err(Error::ProviderNotFound));
    assert_eq!(g.override_provider(7, p), Err(Error::ProviderNotFound));
    assert_eq!(g.override_provider(p, q), Ok(()));
    assert_eq!(g.provider(p).unwrap().overridden(), &vec![q]);
    assert_eq!(g.provider(p).unwrap().last_overriding(), Some(q));
    assert!(g.provider(q).unwrap().overridden().is_empty());
    assert_eq!(g.reset_last_overriding(p), Ok(()));
    assert!(g.provider(p).unwrap().overridden().is_empty());
    assert_eq!(g.reset_last_overriding(p), Err(Error::NotOverriddenError));
    assert_eq!(g.reset_last_overriding(9), Err(Error::ProviderNotFound));
    assert_eq!(g.override_provider(p, q), Ok(()));
    assert_eq!(g.override_provider(p, q), Ok(()));
    assert_eq!(g.reset_override(p), Ok(()));
    assert!(g.provider(p).unwrap().overridden().is_empty());
    assert_eq!(g.reset_override(p), Ok(()));
    assert_eq!(g.reset_override(9), Err(Error::ProviderNotFound));
}

#[test]
fn an_overriding_provider_can_itself_be_overridden() {
    let mut g = Graph::new();
    let a = plain(&mut g);
    let b = plain(&mut g);
    let c = plain(&mut g);
    assert_eq!(g.override_provider(a, b), Ok(()));
    assert_eq!(g.override_provider(b, c), Ok(()));
    assert_eq!(g.provider(a).unwrap().last_overriding(), Some(b));
    assert_eq!(g.provider(b).unwrap().last_overriding(), Some(c));
    assert_eq!(g.provider(c).unwrap().last_overriding(), None);
}

#[test]
fn registering_through_the_graph() {
    let mut g = Graph::new();
    let c = g.add_container(ProviderKind::Dependency);
    let dep = g.add_provider(ProviderVariant::Dependency(Dependency::new(None, None)));
    let p = plain(&mut g);
    assert_eq!(g.set_provider(c, "dep".to_string(), dep), Ok(()));
    assert_eq!(g.set_provider(c, "x".to_string(), p), Err(Error::WrongProviderType));
    assert_eq!(g.set_provider(c, "x".to_string(), 50), Err(Error::ProviderNotFound));
    assert_eq!(g.set_provider(9, "x".to_string(), dep), Err(Error::ProviderNotFound));
    assert_eq!(g.set_provider(c, "parent".to_string(), p), Ok(()));
    assert_eq!(
        g.container(c).unwrap().providers(),
        &vec![("dep".to_string(), Registration { id: dep, kind: ProviderKind::Dependency })]
    );
    assert_eq!(g.del_attr(c, "dep"), Ok(()));
    assert!(g.container(c).unwrap().providers().is_empty());
    assert_eq!(g.del_attr(c, "dep"), Ok(()));
    assert_eq!(g.del_attr(9, "dep"), Err(Error::ProviderNotFound));
}

#[test]
fn set_providers_stops_at_the_first_refusal() {
    let mut g = Graph::new();
    let c = g.add_container(ProviderKind::Dependency);
    let d1 = g.add_provider(ProviderVariant::Dependency(Dependency::new(None, None)));
    let p = plain(&mut g);
    let d2 = g.add_provider(ProviderVariant::Dependency(Dependency::new(None, None)));
    let r = g.set_providers(
        c,
        vec![("a".to_string(), d1), ("b".to_string(), p), ("c".to_string(), d2)],
    );
    assert_eq!(r, Err(Error::WrongProviderType));
    assert_eq!(
        g.container(c).unwrap().providers(),
        &vec![("a".to_string(), Registration { id: d1, kind: ProviderKind::Dependency })]
    );
    assert_eq!(g.set_providers(c, vec![]), Ok(()));
    assert_eq!(g.set_providers(c, vec![("c".to_string(), d2), ("a".to_string(), d2)]), Ok(()));
    assert_eq!(
        g.container(c).unwrap().providers(),
        &vec![
            ("a".to_string(), Registration { id: d2, kind: ProviderKind::Dependency }),
            ("c".to_string(), Registration { id: d2, kind: ProviderKind::Dependency }),
        ]
    );
}

#[test]
fn arguments_through_the_graph() {
    let mut g = Graph::new();
    let p = plain(&mut g);
    let q = plain(&mut g);
    assert_eq!(g.set_provides(p, Injection::Host(HostRef(1))), Ok(()));
    assert_eq!(g.add_args(p, vec![Injection::Provider(q)]), Ok(()));
    assert_eq!(g.add_kwargs(p, vec![("k".to_string(), Injection::Produced(q))]), Ok(()));
    assert_eq!(g.set_provides(5, Injection::Host(HostRef(1))), Err(Error::ProviderNotFound));
    assert_eq!(g.add_args(5, vec![]), Err(Error::ProviderNotFound));
    assert_eq!(g.add_kwargs(5, vec![]), Err(Error::ProviderNotFound));
    let provider = g.provider(p).unwrap();
    assert_eq!(provider.provides(), Some(&Injection::Host(HostRef(1))));
    assert_eq!(provider.args(), &vec![Injection::Provider(q)]);
    assert_eq!(provider.kwargs(), &vec![("k".to_string(), Injection::Produced(q))]);
    assert_eq!(g.related(p), Ok(vec![q, q]));
    assert_eq!(g.related(q), Ok(vec![]));
    assert_eq!(g.related(17), Err(Error::ProviderNotFound));
}

#[test]
fn related_of_a_container_provider_are_the_members_then_the_arguments() {
    let mut g = Graph::new();
    let inner = g.add_container(ProviderKind::Provider);
    let a = plain(&mut g);
    let b = plain(&mut g);
    let arg = plain(&mut g);
    let wrapper = g.add_provider(ProviderVariant::Container(Container::new(inner)));
    g.set_provider(inner, "b".to_string(), b).unwrap();
    g.set_provider(inner, "a".to_string(), a).unwrap();
    g.add_args(wrapper, vec![Injection::Provider(arg)]).unwrap();
    assert_eq!(g.related(wrapper), Ok(vec![b, a, arg]));
    assert_eq!(g.wrapped(wrapper), Some(inner));
    assert_eq!(g.wrapped(a), None);
    assert_eq!(g.wrapped(77), None);
    let dangling = g.add_provider(ProviderVariant::Container(Container::new(40)));
    assert_eq!(g.related(dangling), Ok(vec![]));
}

#[test]
fn related_of_a_dependencies_container_are_its_members() {
    let mut g = Graph::new();
    let a = plain(&mut g);
    let b = plain(&mut g);
    let deps = g.add_provider(ProviderVariant::DependenciesContainer(DependenciesContainer::new(
        vec![("a".to_string(), a), ("b".to_string(), b)],
    )));
    assert_eq!(g.related(deps), Ok(vec![a, b]));
}

#[test]
fn parent_name_follows_the_parent_links() {
    let mut g = Graph::new();
    let top = g.add_container(ProviderKind::Provider);
    let mid = g.add_container(ProviderKind::Provider);
    let low = g.add_container(ProviderKind::Provider);
    assert_eq!(g.parent_name(low), Ok(None));
    assert_eq!(g.assign_parent(low, mid), Ok(()));
    assert_eq!(g.assign_parent(mid, top), Ok(()));
    assert_eq!(g.parent_name(low), Ok(None));
    assert_eq!(g.parent_name(9), Err(Error::ProviderNotFound));
    assert_eq!(g.set_declarative_parent(top, Some("Core".to_string())), Ok(()));
    assert_eq!(g.parent_name(low), Ok(Some("Core".to_string())));
    assert_eq!(g.parent_name(mid), Ok(Some("Core".to_string())));
    assert_eq!(g.parent_name(top), Ok(Some("Core".to_string())));
    assert_eq!(g.set_declarative_parent(low, Some("Ignored".to_string())), Ok(()));
    assert_eq!(g.parent_name(low), Ok(Some("Core".to_string())));
    assert_eq!(g.set_declarative_parent(top, None), Ok(()));
    assert_eq!(g.parent_name(low), Ok(None));
    assert_eq!(g.set_declarative_parent(9, None), Err(Error::ProviderNotFound));
    assert_eq!(g.assign_parent(low, 9), Err(Error::ProviderNotFound));
    assert_eq!(g.assign_parent(9, low), Err(Error::ProviderNotFound));
    assert_eq!(g.container(low).unwrap().parent(), Some(mid));
}

#[test]
fn parent_cycle_is_reported() {
    let mut g = Graph::new();
    let a = g.add_container(ProviderKind::Provider);
    let b = g.add_container(ProviderKind::Provider);
    let c = g.add_container(ProviderKind::Provider);
    g.assign_parent(a, b).unwrap();
    g.assign_parent(b, a).unwrap();
    g.assign_parent(c, a).unwrap();
    assert_eq!(g.parent_name(a), Err(Error::CyclicParentError));
    assert_eq!(g.parent_name(b), Err(Error::CyclicParentError));
    assert_eq!(g.parent_name(c), Err(Error::CyclicParentError));
    g.assign_parent(a, a).unwrap();
    assert_eq!(g.parent_name(a), Err(Error::CyclicParentError));
}

#[test]
fn longest_chain_without_cycle_is_walked_to_its_end() {
    let mut g = Graph::new();
    let n = 5;
    for _ in 0..n {
        g.add_container(ProviderKind::Provider);
    }
    for c in 1..n {
        g.assign_parent(c, c - 1).unwrap();
    }
    for c in 0..n {
        assert_eq!(g.parent_name(c), Ok(None));
    }
}

#[test]
fn container_overrides_through_the_graph() {
    let mut g = Graph::new();
    let a = g.add_container(ProviderKind::Provider);
    let b = g.add_container(ProviderKind::Provider);
    assert_eq!(g.override_container(a, a), Err(Error::SelfOverrideError));
    assert_eq!(g.override_container(a, 5), Err(Error::ProviderNotFound));
    assert_eq!(g.override_container(5, a), Err(Error::ProviderNotFound));
    assert_eq!(g.reset_last_overriding_container(a), Err(Error::NotOverriddenError));
    assert_eq!(g.override_container(a, b), Ok(()));
    assert_eq!(g.container(a).unwrap().overridden(), &vec![b]);
    assert_eq!(g.reset_last_overriding_container(a), Ok(()));
    assert!(g.container(a).unwrap().overridden().is_empty());
    assert_eq!(g.override_container(a, b), Ok(()));
    assert_eq!(g.reset_override_container(a), Ok(()));
    assert!(g.container(a).unwrap().overridden().is_empty());
    assert_eq!(g.reset_override_container(5), Err(Error::ProviderNotFound));
    assert_eq!(g.reset_last_overriding_container(5), Err(Error::ProviderNotFound));
}

#[test]
fn plain_attributes_through_the_graph() {
    let mut g = Graph::new();
    let c = g.add_container(ProviderKind::Provider);
    assert_eq!(g.set_value(c, "limit".to_string(), HostRef(3)), Ok(()));
    assert_eq!(g.set_value(9, "limit".to_string(), HostRef(3)), Err(Error::ProviderNotFound));
    assert_eq!(
        g.container(c).unwrap().get_attr("limit"),
        Ok(inj::containers::AttributeValue::Value(HostRef(3)))
    );
    assert!(g.container(c).unwrap().providers().is_empty());
    assert_eq!(g.del_attr(c, "limit"), Ok(()));
    assert_eq!(g.container(c).unwrap().get_attr("limit"), Err(Error::ProviderNotFound));
}
