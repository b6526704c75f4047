//! A subscriber, and the request that delivers a notification to it.

use crate::notification::{payload, Notification, NotificationView};
use vstd::prelude::*;
use vstd::string::StringExecFns;

verus! {

/// An endpoint that receives notifications: the URL that is posted to, and a
/// name for display. A subscriber is known by its URL.
#[derive(Debug)]
pub struct Subscriber {
    pub url: String,
    pub name: String,
}

/// A subscriber as plain values.
pub struct SubscriberView {
    pub url: Seq<char>,
    pub name: Seq<char>,
}

impl View for Subscriber {
    type V = SubscriberView;

    open spec fn view(&self) -> SubscriberView {
        SubscriberView { url: self.url@, name: self.name@ }
    }
}

impl Clone for Subscriber {
    fn clone(&self) -> (r: Self)
        ensures
            r@ == self@,
    {
        Subscriber { url: self.url.clone(), name: self.name.clone() }
    }
}

/// One HTTP request: its method, where it goes, the content type it
/// declares, its body, and the line to log for it.
#[derive(Debug)]
pub struct Delivery {
    pub method: String,
    pub url: String,
    pub content_type: String,
    pub body: String,
    pub log_line: String,
}

/// A delivery as plain values.
pub struct DeliveryView {
    pub method: Seq<char>,
    pub url: Seq<char>,
    pub content_type: Seq<char>,
    pub body: Seq<char>,
    pub log_line: Seq<char>,
}

impl View for Delivery {
    type V = DeliveryView;

    open spec fn view(&self) -> DeliveryView {
        DeliveryView {
            method: self.method@,
            url: self.url@,
            content_type: self.content_type@,
            body: self.body@,
            log_line: self.log_line@,
        }
    }
}

impl Clone for Delivery {
    fn clone(&self) -> (r: Self)
        ensures
            r@ == self@,
    {
        Delivery {
            method: self.method.clone(),
            url: self.url.clone(),
            content_type: self.content_type.clone(),
            body: self.body.clone(),
            log_line: self.log_line.clone(),
        }
    }
}

/// The line logged when `n` is sent to `url`.
pub open spec fn log_line(url: Seq<char>, n: NotificationView) -> Seq<char> {
    "Sent "@ + n.action.label() + " notification of: ["@ + n.topic + "] "@ + n.subject + ", to: "@
        + url
}

/// The request that delivers `n` to the subscriber `s`: a JSON body that
/// depends on the notification alone, posted to the subscriber's URL.
pub open spec fn delivery_of(s: SubscriberView, n: NotificationView) -> DeliveryView {
    DeliveryView {
        method: "POST"@,
        url: s.url,
        content_type: "application/json"@,
        body: payload(n),
        log_line: log_line(s.url, n),
    }
}

impl Subscriber {
    /// Prepares the delivery of `payload` to this subscriber. Nothing is sent
    /// here: the caller posts the request and logs its line.
    pub fn update(&self, payload: Notification) -> (r: Delivery)
        ensures
            r@ == delivery_of(self@, payload@),
    {
        let mut line: String = String::new();
        line.append("Sent ");
        line.append(payload.action().as_str());
        line.append(" notification of: [");
        line.append(payload.topic());
        line.append("] ");
        line.append(payload.subject());
        line.append(", to: ");
        line.append(self.url.as_str());
        assert(line@ =~= log_line(self@.url, payload@));
        Delivery {
            method: "POST".to_owned(),
            url: self.url.clone(),
            content_type: "application/json".to_owned(),
            body: payload.to_json(),
            log_line: line,
        }
    }
}

} // verus!
