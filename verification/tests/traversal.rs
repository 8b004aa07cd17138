use inj::errors::Error;
use inj::graph::Graph;
use inj::providers::traverse;
use inj::traversal::discover;
use inj::providers::Container;
use inj::providers::Dependency;
use inj::providers::Injection;
use inj::providers::ProviderKind;
use inj::providers::ProviderVariant;
use inj::providers::Traverse;

fn plain(g: &mut Graph) -> usize {
    g.add_provider(ProviderVariant::Plain)
}

fn relate(g: &mut Graph, from: usize, to: usize) {
    g.add_args(from, vec![Injection::Provider(to)]).unwrap();
}

fn count(found: &[usize], p: usize) -> usize {
    found.iter().filter(|x| **x == p).count()
}

#[test]
fn nothing_to_visit_yields_nothing() {
    let g = Graph::new();
    let mut t = traverse(vec![], None);
    assert_eq!(t.next(&g), None);
    assert_eq!(t.next(&g), None);
    assert_eq!(t.collect(&g), Ok(vec![]));
}

#[test]
fn shared_related_provider_is_yielded_once() {
    let mut g = Graph::new();
    let p1 = plain(&mut g);
    let p2 = plain(&mut g);
    let r = plain(&mut g);
    relate(&mut g, p1, r);
    relate(&mut g, p2, r);
    let found = traverse(vec![p1, p2], None).collect(&g).unwrap();
    assert_eq!(found, vec![p1, p2, r]);
    assert_eq!(count(&found, r), 1);
}

#[test]
fn cycle_terminates_and_yields_each_provider_once() {
    let mut g = Graph::new();
    let a = plain(&mut g);
    let b = plain(&mut g);
    relate(&mut g, a, b);
    relate(&mut g, b, a);
    let found = traverse(vec![a], None).collect(&g).unwrap();
    assert_eq!(found, vec![a, b]);
    let found = traverse(vec![b, a], None).collect(&g).unwrap();
    assert_eq!(found, vec![b, a]);
}

#[test]
fn self_related_provider_is_yielded_once() {
    let mut g = Graph::new();
    let a = plain(&mut g);
    relate(&mut g, a, a);
    assert_eq!(traverse(vec![a, a], None).collect(&g), Ok(vec![a]));
}

#[test]
fn order_is_breadth_first() {
    let mut g = Graph::new();
    let root = plain(&mut g);
    let left = plain(&mut g);
    let right = plain(&mut g);
    let left_child = plain(&mut g);
    let right_child = plain(&mut g);
    relate(&mut g, root, left);
    relate(&mut g, root, right);
    relate(&mut g, left, left_child);
    relate(&mut g, right, right_child);
    relate(&mut g, left_child, right_child);
    let found = traverse(vec![root], None).collect(&g).unwrap();
    assert_eq!(found, vec![root, left, right, left_child, right_child]);
}

#[test]
fn next_yields_one_provider_at_a_time() {
    let mut g = Graph::new();
    let a = plain(&mut g);
    let b = plain(&mut g);
    relate(&mut g, a, b);
    let mut t = Traverse::new(vec![a], None);
    assert_eq!(t.providers(), &vec![a]);
    assert_eq!(t.next(&g), Some(Ok(a)));
    assert_eq!(t.next(&g), Some(Ok(b)));
    assert_eq!(t.next(&g), None);
    assert_eq!(t.next(&g), None);
}

#[test]
fn filter_yields_only_matching_kinds_but_walks_through_the_others() {
    let mut g = Graph::new();
    let a = plain(&mut g);
    let dep = g.add_provider(ProviderVariant::Dependency(Dependency::new(None, None)));
    let mid = g.add_provider(ProviderVariant::Custom(1));
    let deep = g.add_provider(ProviderVariant::Dependency(Dependency::new(None, None)));
    relate(&mut g, a, dep);
    relate(&mut g, a, mid);
    relate(&mut g, mid, deep);
    let found =
        traverse(vec![a], Some(vec![ProviderKind::Dependency])).collect(&g).unwrap();
    assert_eq!(found, vec![dep, deep]);
    let found = traverse(vec![a], Some(vec![ProviderKind::Custom(1), ProviderKind::Dependency]))
        .collect(&g)
        .unwrap();
    assert_eq!(found, vec![dep, mid, deep]);
    let found = traverse(vec![a], Some(vec![ProviderKind::Provider])).collect(&g).unwrap();
    assert_eq!(found, vec![a, dep, mid, deep]);
    let found = traverse(vec![a], Some(vec![])).collect(&g).unwrap();
    assert_eq!(found, Vec::<usize>::new());
    let found = traverse(vec![a], Some(vec![ProviderKind::Custom(2)])).collect(&g).unwrap();
    assert_eq!(found, Vec::<usize>::new());
}

#[test]
fn accepts_follows_the_filter() {
    let t = Traverse::new(vec![], Some(vec![ProviderKind::Dependency, ProviderKind::Custom(3)]));
    assert!(t.accepts(ProviderKind::Dependency));
    assert!(t.accepts(ProviderKind::Custom(3)));
    assert!(!t.accepts(ProviderKind::Custom(4)));
    assert!(!t.accepts(ProviderKind::Provider));
    let all = Traverse::new(vec![], None);
    assert!(all.accepts(ProviderKind::Provider));
    assert!(all.accepts(ProviderKind::Custom(4)));
}

#[test]
fn members_of_a_nested_container_are_reached() {
    let mut g = Graph::new();
    let inner = g.add_container(ProviderKind::Provider);
    let a = plain(&mut g);
    let b = plain(&mut g);
    let wrapper = g.add_provider(ProviderVariant::Container(Container::new(inner)));
    g.set_provider(inner, "a".to_string(), a).unwrap();
    g.set_provider(inner, "b".to_string(), b).unwrap();
    let found = traverse(vec![wrapper], None).collect(&g).unwrap();
    assert_eq!(found, vec![wrapper, a, b]);
}

#[test]
fn unknown_provider_surfaces_as_an_error_where_it_is_met() {
    let mut g = Graph::new();
    let a = plain(&mut g);
    let b = plain(&mut g);
    relate(&mut g, a, 99);
    relate(&mut g, a, b);
    let mut t = traverse(vec![a], None);
    assert_eq!(t.next(&g), Some(Ok(a)));
    assert_eq!(t.next(&g), Some(Err(Error::ProviderNotFound)));
    assert_eq!(t.next(&g), Some(Ok(b)));
    assert_eq!(t.next(&g), None);
    assert_eq!(traverse(vec![a], None).collect(&g), Err(Error::ProviderNotFound));
    assert_eq!(traverse(vec![42], None).collect(&g), Err(Error::ProviderNotFound));
}

#[test]
fn visit_marks_and_enqueues() {
    let mut g = Graph::new();
    let a = plain(&mut g);
    let b = plain(&mut g);
    let c = plain(&mut g);
    relate(&mut g, a, b);
    relate(&mut g, a, a);
    relate(&mut g, a, c);
    let mut t = Traverse::new(vec![], None);
    assert_eq!(t.visit(&g, 77), Err(Error::ProviderNotFound));
    assert_eq!(t.visit(&g, a), Ok(a));
    assert_eq!(t.next(&g), Some(Ok(b)));
    assert_eq!(t.next(&g), Some(Ok(c)));
    assert_eq!(t.next(&g), None);
}

#[test]
fn a_traversal_is_not_restartable() {
    let mut g = Graph::new();
    let a = plain(&mut g);
    let mut t = traverse(vec![a], None);
    assert_eq!(t.collect(&g), Ok(vec![a]));
    assert_eq!(t.collect(&g), Ok(vec![]));
    assert_eq!(traverse(vec![a], None).collect(&g), Ok(vec![a]));
}

#[test]
fn discover_collects_what_is_reached() {
    let mut g = Graph::new();
    let a = plain(&mut g);
    let b = plain(&mut g);
    let c = g.add_provider(ProviderVariant::Dependency(Dependency::new(None, None)));
    let lonely = plain(&mut g);
    relate(&mut g, a, b);
    relate(&mut g, b, c);
    relate(&mut g, c, a);
    assert_eq!(discover(&g, vec![a], None), Ok(vec![a, b, c]));
    assert_eq!(discover(&g, vec![c, c], None), Ok(vec![c, a, b]));
    assert_eq!(discover(&g, vec![a], Some(vec![ProviderKind::Dependency])), Ok(vec![c]));
    assert_eq!(discover(&g, vec![lonely], None), Ok(vec![lonely]));
    assert_eq!(discover(&g, vec![], None), Ok(vec![]));
    relate(&mut g, lonely, 1000);
    assert_eq!(discover(&g, vec![lonely], None), Err(Error::ProviderNotFound));
    assert_eq!(discover(&g, vec![a], None), Ok(vec![a, b, c]));
}
