use bambangshop::notification::{Action, Notification};
use bambangshop::validation::ValidationError;
use rocket::serde::json::{from_str, Value};

fn event(action: Action, topic: &str, subject: &str) -> Notification {
    Notification::new(action, topic, subject).unwrap()
}

fn same(a: &Notification, b: &Notification) -> bool {
    a.action() == b.action() && a.topic() == b.topic() && a.subject() == b.subject()
}

#[test]
fn a_notification_keeps_what_it_was_made_of() {
    let n = event(Action::Promoted, "shoes", "Red Sneaker");
    assert_eq!(n.action(), Action::Promoted);
    assert_eq!(n.topic(), "shoes");
    assert_eq!(n.subject(), "Red Sneaker");
}

#[test]
fn a_notification_needs_a_topic() {
    let refused = Notification::new(Action::Created, "", "Red Sneaker");
    assert_eq!(refused.unwrap_err(), ValidationError::EmptyTopic);
}

#[test]
fn a_notification_may_have_an_empty_subject() {
    let n = event(Action::Deleted, "shoes", "");
    assert_eq!(n.subject(), "");
    assert_eq!(
        n.to_json(),
        "{\"status\":\"deleted\",\"product_type\":\"shoes\",\"product_title\":\"\"}"
    );
}

#[test]
fn a_clone_is_the_same_notification() {
    let n = event(Action::Deleted, "hats", "Straw \"Boater\"");
    assert!(same(&n.clone(), &n));
}

#[test]
fn actions_have_their_words() {
    assert_eq!(Action::Created.as_str(), "created");
    assert_eq!(Action::Promoted.as_str(), "promoted");
    assert_eq!(Action::Deleted.as_str(), "deleted");
}

#[test]
fn words_have_their_actions() {
    assert_eq!(Action::from_label("created"), Some(Action::Created));
    assert_eq!(Action::from_label("promoted"), Some(Action::Promoted));
    assert_eq!(Action::from_label("deleted"), Some(Action::Deleted));
    assert_eq!(Action::from_label("Created"), None);
    assert_eq!(Action::from_label("create"), None);
    assert_eq!(Action::from_label(""), None);
}

#[test]
fn payload_of_the_red_sneaker() {
    let n = event(Action::Created, "shoes", "Red Sneaker");
    assert_eq!(
        n.to_json(),
        "{\"status\":\"created\",\"product_type\":\"shoes\",\"product_title\":\"Red Sneaker\"}"
    );
}

#[test]
fn payload_names_each_action() {
    assert_eq!(
        event(Action::Promoted, "t", "s").to_json(),
        "{\"status\":\"promoted\",\"product_type\":\"t\",\"product_title\":\"s\"}"
    );
    assert_eq!(
        event(Action::Deleted, "t", "s").to_json(),
        "{\"status\":\"deleted\",\"product_type\":\"t\",\"product_title\":\"s\"}"
    );
}

#[test]
fn payload_escapes_topic_and_subject() {
    let n = event(Action::Created, "a\"b", "line1\nline2\\\u{1}");
    assert_eq!(
        n.to_json(),
        "{\"status\":\"created\",\"product_type\":\"a\\\"b\",\"product_title\":\"line1\\nline2\\\\\\u0001\"}"
    );
}

fn tricky() -> Vec<Notification> {
    vec![
        event(Action::Created, "shoes", "Red Sneaker"),
        event(Action::Promoted, "a\"b", "line1\nline2\\\u{1}"),
        event(Action::Deleted, "\",\"product_title\":\"x\"}", "{\"status\":\"created\"}"),
        event(Action::Created, "caf\u{e9}", "\u{1f45f} \u{7f}\t\r\u{8}\u{c}\u{0}\u{1f}"),
        event(Action::Deleted, "\\", "\\\\\"\""),
        event(Action::Promoted, " ", ""),
    ]
}

#[test]
fn a_payload_read_back_is_the_notification() {
    for n in tricky() {
        let back = Notification::from_json(&n.to_json());
        assert!(matches!(&back, Some(m) if same(m, &n)), "{:?} became {:?}", n, back);
    }
}

#[test]
fn a_json_parser_reads_the_same_three_members() {
    for n in tricky() {
        let value: Value = from_str(&n.to_json()).unwrap();
        let object = value.as_object().unwrap();
        assert_eq!(object.len(), 3);
        assert_eq!(value["status"].as_str(), Some(n.action().as_str()));
        assert_eq!(value["product_type"].as_str(), Some(n.topic()));
        assert_eq!(value["product_title"].as_str(), Some(n.subject()));
    }
}

#[test]
fn from_json_reads_the_red_sneaker() {
    let body = "{\"status\":\"created\",\"product_type\":\"shoes\",\"product_title\":\"Red Sneaker\"}";
    let n = Notification::from_json(body).unwrap();
    assert_eq!(n.action(), Action::Created);
    assert_eq!(n.topic(), "shoes");
    assert_eq!(n.subject(), "Red Sneaker");
    assert_eq!(n.to_json(), body);
}

#[test]
fn from_json_refuses_another_layout() {
    let refused = [
        "",
        "{}",
        "{\"status\": \"created\",\"product_type\":\"shoes\",\"product_title\":\"Red Sneaker\"}",
        " {\"status\":\"created\",\"product_type\":\"shoes\",\"product_title\":\"Red Sneaker\"}",
        "{\"status\":\"created\",\"product_type\":\"shoes\",\"product_title\":\"Red Sneaker\"} ",
        "{\"status\":\"created\",\"product_type\":\"shoes\",\"product_title\":\"Red Sneaker\"}}",
        "{\"status\":\"created\",\"product_type\":\"shoes\",\"product_title\":\"Red Sneaker\"",
        "{\"product_type\":\"shoes\",\"status\":\"created\",\"product_title\":\"Red Sneaker\"}",
        "{\"status\":\"created\",\"product_type\":\"shoes\"}",
        "{\"status\":\"created\",\"product_type\":\"shoes\",\"product_title\":\"Red Sneaker\",\"x\":1}",
        "{\"status\":created,\"product_type\":\"shoes\",\"product_title\":\"Red Sneaker\"}",
        "{\"status\":\"created\",\"product_type\":\"shoes\",\"product_title\":null}",
    ];
    for body in refused {
        assert!(Notification::from_json(body).is_none(), "{}", body);
    }
}

#[test]
fn from_json_refuses_an_unknown_status() {
    let body = "{\"status\":\"updated\",\"product_type\":\"shoes\",\"product_title\":\"Red Sneaker\"}";
    assert!(Notification::from_json(body).is_none());
    let body = "{\"status\":\"\",\"product_type\":\"shoes\",\"product_title\":\"Red Sneaker\"}";
    assert!(Notification::from_json(body).is_none());
}

#[test]
fn from_json_refuses_an_empty_topic() {
    let body = "{\"status\":\"created\",\"product_type\":\"\",\"product_title\":\"Red Sneaker\"}";
    assert!(Notification::from_json(body).is_none());
}

#[test]
fn from_json_refuses_an_escape_that_is_never_written() {
    let body = "{\"status\":\"created\",\"product_type\":\"sh\\u006fes\",\"product_title\":\"Red Sneaker\"}";
    assert!(Notification::from_json(body).is_none());
    let body = "{\"status\":\"cre\\u0061ted\",\"product_type\":\"shoes\",\"product_title\":\"Red Sneaker\"}";
    assert!(Notification::from_json(body).is_none());
}
