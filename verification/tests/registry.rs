use bambangshop::registry::Registry;
use bambangshop::subscriber::Subscriber;
use bambangshop::validation::ValidationError;

fn subscriber(url: &str, name: &str) -> Subscriber {
    Subscriber { url: url.to_string(), name: name.to_string() }
}

fn listed(registry: &Registry, topic: &str) -> Vec<(String, String)> {
    registry.snapshot(topic).into_iter().map(|s| (s.url, s.name)).collect()
}

fn pair(url: &str, name: &str) -> (String, String) {
    (url.to_string(), name.to_string())
}

#[test]
fn a_new_registry_is_empty() {
    let registry = Registry::new();
    assert!(registry.snapshot("shoes").is_empty());
    assert!(registry.snapshot("").is_empty());
}

#[test]
fn subscribers_are_listed_in_the_order_they_registered() {
    let mut registry = Registry::new();
    assert_eq!(registry.register("shoes", subscriber("http://a.test/hook", "A")), Ok(()));
    assert_eq!(registry.register("shoes", subscriber("http://b.test/hook", "B")), Ok(()));
    assert_eq!(registry.register("shoes", subscriber("https://c.test/hook", "C")), Ok(()));
    assert_eq!(
        listed(&registry, "shoes"),
        vec![
            pair("http://a.test/hook", "A"),
            pair("http://b.test/hook", "B"),
            pair("https://c.test/hook", "C"),
        ]
    );
}

#[test]
fn registering_a_url_twice_leaves_one_entry() {
    let mut registry = Registry::new();
    registry.register("shoes", subscriber("http://a.test/hook", "A")).unwrap();
    registry.register("shoes", subscriber("http://a.test/hook", "A")).unwrap();
    assert_eq!(listed(&registry, "shoes"), vec![pair("http://a.test/hook", "A")]);
}

#[test]
fn registering_a_url_again_renames_it_in_place() {
    let mut registry = Registry::new();
    registry.register("shoes", subscriber("http://a.test/hook", "A")).unwrap();
    registry.register("shoes", subscriber("http://b.test/hook", "B")).unwrap();
    registry.register("shoes", subscriber("http://a.test/hook", "Alpha")).unwrap();
    assert_eq!(
        listed(&registry, "shoes"),
        vec![pair("http://a.test/hook", "Alpha"), pair("http://b.test/hook", "B")]
    );
}

#[test]
fn urls_differ_by_case_and_by_a_trailing_slash() {
    let mut registry = Registry::new();
    registry.register("shoes", subscriber("http://a.test/hook", "A")).unwrap();
    registry.register("shoes", subscriber("http://a.test/hook/", "B")).unwrap();
    registry.register("shoes", subscriber("http://A.test/hook", "C")).unwrap();
    assert_eq!(registry.snapshot("shoes").len(), 3);
}

#[test]
fn one_url_may_stand_under_two_topics() {
    let mut registry = Registry::new();
    registry.register("shoes", subscriber("http://a.test/hook", "A")).unwrap();
    registry.register("hats", subscriber("http://a.test/hook", "A for hats")).unwrap();
    assert_eq!(listed(&registry, "shoes"), vec![pair("http://a.test/hook", "A")]);
    assert_eq!(listed(&registry, "hats"), vec![pair("http://a.test/hook", "A for hats")]);
    registry.unregister("shoes", "http://a.test/hook");
    assert!(registry.snapshot("shoes").is_empty());
    assert_eq!(listed(&registry, "hats"), vec![pair("http://a.test/hook", "A for hats")]);
}

#[test]
fn topics_are_told_apart_exactly() {
    let mut registry = Registry::new();
    registry.register("shoes", subscriber("http://a.test/hook", "A")).unwrap();
    assert!(registry.snapshot("Shoes").is_empty());
    assert!(registry.snapshot("shoe").is_empty());
    assert!(registry.snapshot("shoes ").is_empty());
}

#[test]
fn a_malformed_url_is_refused() {
    let mut registry = Registry::new();
    registry.register("shoes", subscriber("http://a.test/hook", "A")).unwrap();
    assert_eq!(
        registry.register("shoes", subscriber("a.test/hook", "B")),
        Err(ValidationError::MalformedUrl)
    );
    assert_eq!(
        registry.register("shoes", subscriber("", "B")),
        Err(ValidationError::MalformedUrl)
    );
    assert_eq!(
        registry.register("hats", subscriber("http://a b/hook", "B")),
        Err(ValidationError::MalformedUrl)
    );
    assert_eq!(listed(&registry, "shoes"), vec![pair("http://a.test/hook", "A")]);
    assert!(registry.snapshot("hats").is_empty());
}

#[test]
fn an_empty_topic_is_refused() {
    let mut registry = Registry::new();
    assert_eq!(
        registry.register("", subscriber("http://a.test/hook", "A")),
        Err(ValidationError::EmptyTopic)
    );
    assert_eq!(
        registry.register("", subscriber("nonsense", "A")),
        Err(ValidationError::EmptyTopic)
    );
    assert!(registry.snapshot("").is_empty());
}

#[test]
fn unregistering_removes_the_one_url() {
    let mut registry = Registry::new();
    registry.register("shoes", subscriber("http://a.test/hook", "A")).unwrap();
    registry.register("shoes", subscriber("http://b.test/hook", "B")).unwrap();
    registry.register("shoes", subscriber("http://c.test/hook", "C")).unwrap();
    registry.unregister("shoes", "http://b.test/hook");
    assert_eq!(
        listed(&registry, "shoes"),
        vec![pair("http://a.test/hook", "A"), pair("http://c.test/hook", "C")]
    );
}

#[test]
fn unregistering_what_is_not_there_changes_nothing() {
    let mut registry = Registry::new();
    registry.unregister("shoes", "http://a.test/hook");
    assert!(registry.snapshot("shoes").is_empty());
    registry.register("shoes", subscriber("http://a.test/hook", "A")).unwrap();
    registry.unregister("shoes", "http://b.test/hook");
    registry.unregister("hats", "http://a.test/hook");
    registry.unregister("", "");
    assert_eq!(listed(&registry, "shoes"), vec![pair("http://a.test/hook", "A")]);
}

#[test]
fn unregistering_twice_is_unregistering_once() {
    let mut registry = Registry::new();
    registry.register("shoes", subscriber("http://a.test/hook", "A")).unwrap();
    registry.register("shoes", subscriber("http://b.test/hook", "B")).unwrap();
    registry.unregister("shoes", "http://a.test/hook");
    registry.unregister("shoes", "http://a.test/hook");
    assert_eq!(listed(&registry, "shoes"), vec![pair("http://b.test/hook", "B")]);
}

#[test]
fn a_topic_can_be_emptied_and_filled_again() {
    let mut registry = Registry::new();
    registry.register("shoes", subscriber("http://a.test/hook", "A")).unwrap();
    registry.register("hats", subscriber("http://h.test/hook", "H")).unwrap();
    registry.register("bags", subscriber("http://g.test/hook", "G")).unwrap();
    registry.unregister("hats", "http://h.test/hook");
    assert!(registry.snapshot("hats").is_empty());
    assert_eq!(listed(&registry, "shoes"), vec![pair("http://a.test/hook", "A")]);
    assert_eq!(listed(&registry, "bags"), vec![pair("http://g.test/hook", "G")]);
    registry.register("hats", subscriber("http://i.test/hook", "I")).unwrap();
    assert_eq!(listed(&registry, "hats"), vec![pair("http://i.test/hook", "I")]);
    assert_eq!(listed(&registry, "bags"), vec![pair("http://g.test/hook", "G")]);
}

#[test]
fn a_reregistered_url_goes_to_the_end() {
    let mut registry = Registry::new();
    registry.register("shoes", subscriber("http://a.test/hook", "A")).unwrap();
    registry.register("shoes", subscriber("http://b.test/hook", "B")).unwrap();
    registry.unregister("shoes", "http://a.test/hook");
    registry.register("shoes", subscriber("http://a.test/hook", "A")).unwrap();
    assert_eq!(
        listed(&registry, "shoes"),
        vec![pair("http://b.test/hook", "B"), pair("http://a.test/hook", "A")]
    );
}

#[test]
fn a_snapshot_does_not_follow_the_registry() {
    let mut registry = Registry::new();
    registry.register("shoes", subscriber("http://a.test/hook", "A")).unwrap();
    let before = registry.snapshot("shoes");
    registry.register("shoes", subscriber("http://b.test/hook", "B")).unwrap();
    registry.unregister("shoes", "http://a.test/hook");
    assert_eq!(before.len(), 1);
    assert_eq!(before[0].url, "http://a.test/hook");
    assert_eq!(listed(&registry, "shoes"), vec![pair("http://b.test/hook", "B")]);
}

#[test]
fn a_subscriber_clone_has_the_same_url_and_name() {
    let s = subscriber("http://a.test/hook", "A");
    let t = s.clone();
    assert_eq!(t.url, s.url);
    assert_eq!(t.name, s.name);
}
