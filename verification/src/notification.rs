//! The notification of one event, and its JSON payload.

use crate::json::{lemma_quoted_unique, quote, quoted, unquote};
use crate::text::{chars_of, expect_text, occurs_at, same_text};
use crate::validation::ValidationError;
use vstd::prelude::*;
use vstd::string::StringExecFns;

verus! {

/// What happened to a product.
#[derive(Clone, Copy, Debug, PartialEq, Eq, Structural)]
pub enum Action {
    Created,
    Promoted,
    Deleted,
}

impl Action {
    /// The word that stands for the action on the wire.
    pub open spec fn label(self) -> Seq<char> {
        match self {
            Action::Created => "created"@,
            Action::Promoted => "promoted"@,
            Action::Deleted => "deleted"@,
        }
    }

    /// The word that stands for the action on the wire.
    pub fn as_str(self) -> (r: &'static str)
        ensures
            r@ == self.label(),
    {
        match self {
            Action::Created => "created",
            Action::Promoted => "promoted",
            Action::Deleted => "deleted",
        }
    }

    /// The action that `label` stands for, if it stands for one.
    pub fn from_label(label: &str) -> (r: Option<Action>)
        ensures
            match r {
                Some(action) => action.label() == label@,
                None => forall|action: Action| action.label() != label@,
            },
    {
        if same_text(label, "created") {
            Some(Action::Created)
        } else if same_text(label, "promoted") {
            Some(Action::Promoted)
        } else if same_text(label, "deleted") {
            Some(Action::Deleted)
        } else {
            None
        }
    }
}

/// One event: what happened, the topic it happened under, and the title of the
/// product it happened to. The topic is never empty.
#[derive(Debug)]
pub struct Notification {
    action: Action,
    topic: String,
    subject: String,
}

/// A notification as plain values.
pub struct NotificationView {
    pub action: Action,
    pub topic: Seq<char>,
    pub subject: Seq<char>,
}

impl NotificationView {
    /// A notification's topic is not empty.
    pub open spec fn wf(self) -> bool {
        self.topic.len() > 0
    }
}

impl View for Notification {
    type V = NotificationView;

    closed spec fn view(&self) -> NotificationView {
        NotificationView { action: self.action, topic: self.topic@, subject: self.subject@ }
    }
}

/// The JSON object sent for a notification: the three members `status`,
/// `product_type` and `product_title`, in this order, without white space.
pub open spec fn payload(n: NotificationView) -> Seq<char> {
    "{\"status\":"@ + quoted(n.action.label()) + ",\"product_type\":"@ + quoted(n.topic)
        + ",\"product_title\":"@ + quoted(n.subject) + "}"@
}

/// The notification whose payload is `body`, if `body` is the payload of one.
/// `theorem_payload_injective` shows that there is at most one.
pub open spec fn decode(body: Seq<char>) -> Option<NotificationView> {
    if exists|n: NotificationView| n.wf() && payload(n) == body {
        Some(choose|n: NotificationView| n.wf() && payload(n) == body)
    } else {
        None
    }
}

/// Whether the seven parts of the payload of `n` stand in `text` one behind
/// the other, from its first character to its last.
spec fn laid_out(text: Seq<char>, n: NotificationView) -> bool {
    let status = quoted(n.action.label());
    let topic = quoted(n.topic);
    let subject = quoted(n.subject);
    let status_at = "{\"status\":"@.len() as int;
    let topic_key_at = status_at + status.len();
    let topic_at = topic_key_at + ",\"product_type\":"@.len();
    let subject_key_at = topic_at + topic.len();
    let subject_at = subject_key_at + ",\"product_title\":"@.len();
    let close_at = subject_at + subject.len();
    &&& occurs_at(text, 0, "{\"status\":"@)
    &&& occurs_at(text, status_at, status)
    &&& occurs_at(text, topic_key_at, ",\"product_type\":"@)
    &&& occurs_at(text, topic_at, topic)
    &&& occurs_at(text, subject_key_at, ",\"product_title\":"@)
    &&& occurs_at(text, subject_at, subject)
    &&& occurs_at(text, close_at, "}"@)
    &&& text.len() == close_at + "}"@.len()
}

/// A text is the payload of `n` exactly where the parts of that payload are
/// laid out in it.
proof fn lemma_payload_layout(text: Seq<char>, n: NotificationView)
    ensures
        text == payload(n) <==> laid_out(text, n),
{
    let status = quoted(n.action.label());
    let topic = quoted(n.topic);
    let subject = quoted(n.subject);
    let status_at = "{\"status\":"@.len() as int;
    let topic_key_at = status_at + status.len();
    let topic_at = topic_key_at + ",\"product_type\":"@.len();
    let subject_key_at = topic_at + topic.len();
    let subject_at = subject_key_at + ",\"product_title\":"@.len();
    let close_at = subject_at + subject.len();
    let end = close_at + "}"@.len();
    if text == payload(n) {
        assert(text.subrange(0, status_at) =~= "{\"status\":"@);
        assert(text.subrange(status_at, topic_key_at) =~= status);
        assert(text.subrange(topic_key_at, topic_at) =~= ",\"product_type\":"@);
        assert(text.subrange(topic_at, subject_key_at) =~= topic);
        assert(text.subrange(subject_key_at, subject_at) =~= ",\"product_title\":"@);
        assert(text.subrange(subject_at, close_at) =~= subject);
        assert(text.subrange(close_at, end) =~= "}"@);
    }
    if laid_out(text, n) {
        assert(text =~= text.subrange(0, status_at) + text.subrange(status_at, topic_key_at)
            + text.subrange(topic_key_at, topic_at) + text.subrange(topic_at, subject_key_at)
            + text.subrange(subject_key_at, subject_at) + text.subrange(subject_at, close_at)
            + text.subrange(close_at, end));
    }
}

/// The three words for the actions differ.
proof fn lemma_labels_differ(a: Action, b: Action)
    requires
        a.label() == b.label(),
    ensures
        a == b,
{
    reveal_strlit("created");
    reveal_strlit("promoted");
    reveal_strlit("deleted");
    assert("created"@[0] == 'c');
    assert("promoted"@[0] == 'p');
    assert("deleted"@[0] == 'd');
}

/// Two notifications with the same payload are the same notification.
pub proof fn theorem_payload_injective(a: NotificationView, b: NotificationView)
    requires
        payload(a) == payload(b),
    ensures
        a == b,
{
    let text = payload(a);
    lemma_payload_layout(text, a);
    lemma_payload_layout(text, b);
    let status_at = "{\"status\":"@.len() as int;
    lemma_quoted_unique(text, status_at, a.action.label(), b.action.label());
    lemma_labels_differ(a.action, b.action);
    let topic_at = status_at + quoted(a.action.label()).len() + ",\"product_type\":"@.len();
    lemma_quoted_unique(text, topic_at, a.topic, b.topic);
    let subject_at = topic_at + quoted(a.topic).len() + ",\"product_title\":"@.len();
    lemma_quoted_unique(text, subject_at, a.subject, b.subject);
}

/// Serialising a notification and reading the payload back gives the same
/// action, topic and subject.
pub proof fn theorem_round_trip(n: NotificationView)
    requires
        n.wf(),
    ensures
        decode(payload(n)) == Some(n),
{
    let found = choose|m: NotificationView| m.wf() && payload(m) == payload(n);
    theorem_payload_injective(found, n);
}

impl Notification {
    #[verifier::type_invariant]
    spec fn topic_is_not_empty(&self) -> bool {
        self.topic@.len() > 0
    }

    /// The notification of `action` on the product `subject` under `topic`.
    /// An empty topic is refused.
    pub fn new(action: Action, topic: &str, subject: &str) -> (r: Result<
        Notification,
        ValidationError,
    >)
        ensures
            match r {
                Ok(n) => topic@.len() > 0 && n@ == (NotificationView {
                    action,
                    topic: topic@,
                    subject: subject@,
                }),
                Err(e) => topic@.len() == 0 && e == ValidationError::EmptyTopic,
            },
    {
        if topic.is_empty() {
            return Err(ValidationError::EmptyTopic);
        }
        Ok(Notification { action, topic: topic.to_owned(), subject: subject.to_owned() })
    }

    /// What happened.
    pub fn action(&self) -> (r: Action)
        ensures
            r == self@.action,
    {
        self.action
    }

    /// The topic the event happened under: the key by which subscribers are
    /// found. It is not empty.
    pub fn topic(&self) -> (r: &str)
        ensures
            r@ == self@.topic,
            r@.len() > 0,
    {
        proof {
            use_type_invariant(self);
        }
        self.topic.as_str()
    }

    /// The title of the product the event happened to.
    pub fn subject(&self) -> (r: &str)
        ensures
            r@ == self@.subject,
    {
        self.subject.as_str()
    }

    /// Reads a payload back. The payload is accepted in the one form that
    /// `to_json` writes, and in no other.
    pub fn from_json(body: &str) -> (r: Option<Notification>)
        ensures
            match r {
                Some(n) => decode(body@) == Some(n@),
                None => decode(body@) is None,
            },
            r matches Some(n) ==> n@.wf() && payload(n@) == body@,
    {
        let text: Vec<char> = chars_of(body);
        proof {
            assert forall|n: NotificationView| text@ == payload(n) <==> laid_out(text@, n) by {
                lemma_payload_layout(text@, n);
            }
        }
        let status_at: usize = match expect_text(&text, 0, "{\"status\":") {
            Some(end) => end,
            None => {
                return None;
            },
        };
        let (status, topic_key_at) = match unquote(&text, status_at) {
            Some(found) => found,
            None => {
                return None;
            },
        };
        let topic_at: usize = match expect_text(&text, topic_key_at, ",\"product_type\":") {
            Some(end) => end,
            None => {
                return None;
            },
        };
        let (topic, subject_key_at) = match unquote(&text, topic_at) {
            Some(found) => found,
            None => {
                return None;
            },
        };
        let subject_at: usize = match expect_text(&text, subject_key_at, ",\"product_title\":") {
            Some(end) => end,
            None => {
                return None;
            },
        };
        let (subject, close_at) = match unquote(&text, subject_at) {
            Some(found) => found,
            None => {
                return None;
            },
        };
        let end: usize = match expect_text(&text, close_at, "}") {
            Some(end) => end,
            None => {
                return None;
            },
        };
        let action: Action = match Action::from_label(status.as_str()) {
            Some(action) => action,
            None => {
                return None;
            },
        };
        if end != text.len() || topic.as_str().is_empty() {
            return None;
        }
        let n = Notification { action, topic, subject };
        proof {
            theorem_round_trip(n@);
        }
        Some(n)
    }

    /// The JSON payload of the notification.
    pub fn to_json(&self) -> (r: String)
        ensures
            r@ == payload(self@),
    {
        let mut out: String = String::new();
        out.append("{\"status\":");
        out.append(quote(self.action.as_str()).as_str());
        out.append(",\"product_type\":");
        out.append(quote(self.topic.as_str()).as_str());
        out.append(",\"product_title\":");
        out.append(quote(self.subject.as_str()).as_str());
        out.append("}");
        assert(out@ =~= payload(self@));
        out
    }
}

impl Clone for Notification {
    fn clone(&self) -> (r: Self)
        ensures
            r@ == self@,
    {
        proof {
            use_type_invariant(self);
        }
        Notification {
            action: self.action,
            topic: self.topic.clone(),
            subject: self.subject.clone(),
        }
    }
}

} // verus!
