//! Dispatch: from one event to the deliveries it causes, and from what the
//! transport reported back to the outcome of each.
//!
//! `notify` plans; the caller sends. The deliveries of a plan do not depend on
//! one another, so the caller may send them all at once, each under the
//! plan's timeout, and waits until each has answered or timed out. It then
//! hands the replies to `conclude`, in the plan's order. No reply makes the
//! dispatch fail: a failed delivery shows in its own entry of the outcome
//! and nowhere else.

use crate::notification::{payload, Action, Notification, NotificationView};
use crate::registry::{views_of, Registry};
use crate::subscriber::{delivery_of, Delivery, DeliveryView, Subscriber, SubscriberView};
use vstd::prelude::*;

verus! {

/// What the transport reports of one request.
#[derive(Clone, Copy, Debug, PartialEq, Eq, Structural)]
pub enum Reply {
    /// A response came back, with this status code.
    Status(u16),
    /// No connection could be made.
    ConnectionFailed,
    /// No response came within the timeout.
    TimedOut,
    /// What came back was no HTTP response.
    Malformed,
}

/// Why a delivery failed.
#[derive(Clone, Copy, Debug, PartialEq, Eq, Structural)]
pub enum DeliveryError {
    ConnectionFailure,
    Timeout,
    /// The subscriber answered with this status code, which is not a 2xx.
    Status(u16),
    MalformedResponse,
}

/// How one delivery ended.
#[derive(Clone, Copy, Debug, PartialEq, Eq, Structural)]
pub enum DeliveryResult {
    Delivered,
    Failed(DeliveryError),
}

/// How a delivery ended, given what the transport reported of it: a status
/// from 200 to 299 is a success, anything else a failure of its kind.
pub open spec fn settle(reply: Reply) -> DeliveryResult {
    match reply {
        Reply::Status(code) => if 200 <= code <= 299 {
            DeliveryResult::Delivered
        } else {
            DeliveryResult::Failed(DeliveryError::Status(code))
        },
        Reply::ConnectionFailed => DeliveryResult::Failed(DeliveryError::ConnectionFailure),
        Reply::TimedOut => DeliveryResult::Failed(DeliveryError::Timeout),
        Reply::Malformed => DeliveryResult::Failed(DeliveryError::MalformedResponse),
    }
}

/// How the delivery at index `i` ended, given what is known of each delivery
/// in the plan's order. A delivery of which nothing is known was abandoned
/// at its timeout.
pub open spec fn outcome_at(replies: Seq<Option<Reply>>, i: int) -> DeliveryResult {
    if 0 <= i < replies.len() && replies[i] is Some {
        settle(replies[i]->0)
    } else {
        DeliveryResult::Failed(DeliveryError::Timeout)
    }
}

/// The number of failures among `results`.
pub open spec fn failed_count(results: Seq<DeliveryResult>) -> nat
    decreases results.len(),
{
    if results.len() == 0 {
        0
    } else {
        failed_count(results.drop_last()) + if results.last() is Failed {
            1nat
        } else {
            0nat
        }
    }
}

/// The deliveries that send `n` to each of `subscribers`, in their order.
pub open spec fn planned(subscribers: Seq<SubscriberView>, n: NotificationView) -> Seq<
    DeliveryView,
> {
    subscribers.map_values(|s: SubscriberView| delivery_of(s, n))
}

/// The deliveries of a list as plain values, in order.
pub open spec fn deliveries_of(list: Seq<Delivery>) -> Seq<DeliveryView> {
    list.map_values(|d: Delivery| d@)
}

/// A failure is the failing delivery's own: how the delivery at `j` ends does
/// not change with the reply to another delivery `i`, whatever that reply is.
pub proof fn theorem_failures_are_isolated(
    replies: Seq<Option<Reply>>,
    i: int,
    other: Option<Reply>,
    j: int,
)
    requires
        0 <= i < replies.len(),
        i != j,
    ensures
        outcome_at(replies.update(i, other), j) == outcome_at(replies, j),
{
}

/// All deliveries of one plan have the same method, the same content type
/// and the same body: they differ in where they go, and in the log line that
/// says so.
pub proof fn theorem_one_payload_for_all(
    subscribers: Seq<SubscriberView>,
    n: NotificationView,
    i: int,
    j: int,
)
    requires
        0 <= i < subscribers.len(),
        0 <= j < subscribers.len(),
    ensures
        planned(subscribers, n).len() == subscribers.len(),
        planned(subscribers, n)[i].url == subscribers[i].url,
        planned(subscribers, n)[i].body == planned(subscribers, n)[j].body,
        planned(subscribers, n)[i].content_type == planned(subscribers, n)[j].content_type,
        planned(subscribers, n)[i].method == planned(subscribers, n)[j].method,
{
}

impl DeliveryResult {
    /// How a delivery ended, given what the transport reported of it.
    pub fn from_reply(reply: Reply) -> (r: DeliveryResult)
        ensures
            r == settle(reply),
    {
        match reply {
            Reply::Status(code) => {
                if 200 <= code && code <= 299 {
                    DeliveryResult::Delivered
                } else {
                    DeliveryResult::Failed(DeliveryError::Status(code))
                }
            },
            Reply::ConnectionFailed => DeliveryResult::Failed(DeliveryError::ConnectionFailure),
            Reply::TimedOut => DeliveryResult::Failed(DeliveryError::Timeout),
            Reply::Malformed => DeliveryResult::Failed(DeliveryError::MalformedResponse),
        }
    }
}

/// How the delivery to one URL ended.
#[derive(Debug)]
pub struct OutcomeEntry {
    pub url: String,
    pub result: DeliveryResult,
}

/// How each delivery of a plan ended, in the plan's order.
#[derive(Debug)]
pub struct DispatchOutcome {
    pub entries: Vec<OutcomeEntry>,
}

/// The results of a list of entries, in order.
pub open spec fn results_of(entries: Seq<OutcomeEntry>) -> Seq<DeliveryResult> {
    entries.map_values(|e: OutcomeEntry| e.result)
}

impl DispatchOutcome {
    /// The number of deliveries that failed.
    pub fn failures(&self) -> (r: usize)
        ensures
            r == failed_count(results_of(self.entries@)),
    {
        let mut count: usize = 0;
        let mut k: usize = 0;
        while k < self.entries.len()
            invariant
                k <= self.entries@.len(),
                count <= k,
                count == failed_count(results_of(self.entries@).take(k as int)),
            decreases self.entries@.len() - k,
        {
            proof {
                let results = results_of(self.entries@);
                assert(results.take(k + 1).drop_last() =~= results.take(k as int));
            }
            match self.entries[k].result {
                DeliveryResult::Failed(_) => {
                    count = count + 1;
                },
                DeliveryResult::Delivered => {},
            }
            k = k + 1;
        }
        proof {
            let results = results_of(self.entries@);
            assert(results.take(results.len() as int) =~= results);
        }
        count
    }
}

/// The deliveries that one event causes, and the timeout for each of them.
#[derive(Debug)]
pub struct DispatchPlan {
    pub deliveries: Vec<Delivery>,
    /// The time, in milliseconds, after which a delivery that has not
    /// answered is given up. It bounds each delivery by itself.
    pub timeout_ms: u64,
}

impl DispatchPlan {
    /// The outcome of the plan, given the reply to each delivery in the
    /// plan's order. A delivery for which `replies` holds `None`, or nothing
    /// at all, was abandoned at its timeout; replies beyond the plan's
    /// deliveries are not looked at.
    pub fn conclude(&self, replies: &Vec<Option<Reply>>) -> (r: DispatchOutcome)
        ensures
            r.entries@.len() == self.deliveries@.len(),
            forall|i: int|
                0 <= i < self.deliveries@.len() ==> {
                    &&& (#[trigger] r.entries@[i]).url@ == self.deliveries@[i].url@
                    &&& r.entries@[i].result == outcome_at(replies@, i)
                },
    {
        let mut entries: Vec<OutcomeEntry> = Vec::new();
        let mut k: usize = 0;
        while k < self.deliveries.len()
            invariant
                k <= self.deliveries@.len(),
                entries@.len() == k,
                forall|i: int|
                    0 <= i < k ==> {
                        &&& (#[trigger] entries@[i]).url@ == self.deliveries@[i].url@
                        &&& entries@[i].result == outcome_at(replies@, i)
                    },
            decreases self.deliveries@.len() - k,
        {
            let known: Option<Reply> = if k < replies.len() {
                replies[k]
            } else {
                None
            };
            let result: DeliveryResult = match known {
                Some(reply) => DeliveryResult::from_reply(reply),
                None => DeliveryResult::Failed(DeliveryError::Timeout),
            };
            entries.push(OutcomeEntry { url: self.deliveries[k].url.clone(), result });
            k = k + 1;
        }
        DispatchOutcome { entries }
    }
}

/// The dispatch service: the registry of subscribers, and the timeout that
/// bounds each delivery.
pub struct NotificationService {
    pub registry: Registry,
    pub timeout_ms: u64,
}

impl NotificationService {
    /// A service without subscribers, whose deliveries are given up after
    /// `timeout_ms` milliseconds.
    pub fn new(timeout_ms: u64) -> (r: NotificationService)
        ensures
            r.timeout_ms == timeout_ms,
            forall|topic: Seq<char>| (#[trigger] r.registry.subscribers(topic)).len() == 0,
    {
        NotificationService { registry: Registry::new(), timeout_ms }
    }

    /// Plans the deliveries for one event: one to each subscriber registered
    /// under `topic`, in the order of the registry, all with the payload of
    /// the one notification of `action` on `subject`. A topic without
    /// subscribers gives a plan without deliveries.
    pub fn notify(&self, topic: &str, action: Action, subject: &str) -> (plan: DispatchPlan)
        ensures
            plan.timeout_ms == self.timeout_ms,
            self.registry.subscribers(topic@).len() == 0 ==> plan.deliveries@.len() == 0,
            plan.deliveries@.len() == self.registry.subscribers(topic@).len(),
            deliveries_of(plan.deliveries@) == planned(
                self.registry.subscribers(topic@),
                NotificationView { action, topic: topic@, subject: subject@ },
            ),
            forall|i: int|
                0 <= i < plan.deliveries@.len() ==> {
                    &&& (#[trigger] plan.deliveries@[i]).url@ == self.registry.subscribers(
                        topic@,
                    )[i].url
                    &&& plan.deliveries@[i].body@ == payload(
                        NotificationView { action, topic: topic@, subject: subject@ },
                    )
                },
    {
        let targets: Vec<Subscriber> = self.registry.snapshot(topic);
        let mut deliveries: Vec<Delivery> = Vec::new();
        let ghost event = NotificationView { action, topic: topic@, subject: subject@ };
        let ghost subscribers = self.registry.subscribers(topic@);
        if targets.len() == 0 {
            assert(deliveries_of(deliveries@) =~= planned(subscribers, event));
            return DispatchPlan { deliveries, timeout_ms: self.timeout_ms };
        }
        proof {
            use_type_invariant(&self.registry);
            self.registry.lemma_subscribers(topic@);
        }
        let notification: Notification = match Notification::new(action, topic, subject) {
            Ok(n) => n,
            Err(_) => vstd::pervasive::unreached(),
        };
        let mut k: usize = 0;
        while k < targets.len()
            invariant
                k <= targets@.len(),
                deliveries@.len() == k,
                notification@ == event,
                forall|i: int|
                    0 <= i < k ==> (#[trigger] deliveries@[i])@ == delivery_of(
                        targets@[i]@,
                        event,
                    ),
            decreases targets@.len() - k,
        {
            deliveries.push(targets[k].update(notification.clone()));
            k = k + 1;
        }
        proof {
            assert forall|i: int| 0 <= i < subscribers.len() implies deliveries_of(deliveries@)[i]
                == planned(subscribers, event)[i] by {
                assert(views_of(targets@)[i] == targets@[i]@);
            }
            assert(deliveries_of(deliveries@) =~= planned(subscribers, event));
        }
        DispatchPlan { deliveries, timeout_ms: self.timeout_ms }
    }
}

} // verus!
