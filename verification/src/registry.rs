//! The subscribers of each topic.

use crate::subscriber::{Subscriber, SubscriberView};
use crate::validation::{is_valid_url, valid_url, ValidationError};
use vstd::prelude::*;

verus! {

/// The subscribers of a list as plain values, in order.
pub open spec fn views_of(list: Seq<Subscriber>) -> Seq<SubscriberView> {
    list.map_values(|s: Subscriber| s@)
}

/// Whether a subscriber of `list` has the URL `url`.
pub open spec fn has_url(list: Seq<SubscriberView>, url: Seq<char>) -> bool {
    exists|i: int| 0 <= i < list.len() && #[trigger] list[i].url == url
}

/// An index at which `url` stands in `list`, where `has_url(list, url)`.
pub open spec fn index_of_url(list: Seq<SubscriberView>, url: Seq<char>) -> int {
    choose|i: int| 0 <= i < list.len() && #[trigger] list[i].url == url
}

/// Whether no two subscribers of `list` have the same URL.
pub open spec fn distinct_urls(list: Seq<SubscriberView>) -> bool {
    forall|i: int, j: int|
        0 <= i < j < list.len() ==> #[trigger] list[i].url != #[trigger] list[j].url
}

/// `list` after `s` was registered: `s` stands where a subscriber with its
/// URL stood, or at the end where none did.
pub open spec fn upsert(list: Seq<SubscriberView>, s: SubscriberView) -> Seq<SubscriberView> {
    if has_url(list, s.url) {
        list.update(index_of_url(list, s.url), s)
    } else {
        list.push(s)
    }
}

/// `list` after `url` was unregistered: without the subscriber that had it,
/// and unchanged where none had.
pub open spec fn without_url(list: Seq<SubscriberView>, url: Seq<char>) -> Seq<SubscriberView> {
    if has_url(list, url) {
        list.remove(index_of_url(list, url))
    } else {
        list
    }
}

/// Where no two URLs are the same, the index of a URL is the one index at
/// which it stands.
pub proof fn lemma_index_of_url(list: Seq<SubscriberView>, i: int)
    requires
        distinct_urls(list),
        0 <= i < list.len(),
    ensures
        has_url(list, list[i].url),
        index_of_url(list, list[i].url) == i,
{
    let k = index_of_url(list, list[i].url);
    if k < i {
        assert(list[k].url != list[i].url);
    } else if i < k {
        assert(list[i].url != list[k].url);
    }
}

/// Registering one URL twice leaves one subscriber with that URL, the one
/// registered last, where the first one stood: the second registration
/// neither adds an entry nor moves one.
pub proof fn theorem_register_twice(list: Seq<SubscriberView>, a: SubscriberView, b: SubscriberView)
    requires
        distinct_urls(list),
        a.url == b.url,
    ensures
        upsert(upsert(list, a), b) == upsert(list, b),
        upsert(upsert(list, a), b).len() == upsert(list, a).len(),
        distinct_urls(upsert(upsert(list, a), b)),
        has_url(upsert(upsert(list, a), b), a.url),
{
    theorem_upsert_keeps_distinct(list, a);
    theorem_upsert_keeps_distinct(list, b);
    let once = upsert(list, a);
    if has_url(list, a.url) {
        let i = index_of_url(list, a.url);
        assert(once[i].url == a.url);
        lemma_index_of_url(once, i);
        assert(once.update(i, b) =~= list.update(i, b));
    } else {
        let i = list.len() as int;
        assert(once[i].url == a.url);
        lemma_index_of_url(once, i);
        assert(once.update(i, b) =~= list.push(b));
    }
    theorem_upsert_keeps_distinct(once, b);
}

/// After a registration the URLs are still distinct, and the registered URL
/// is among them.
pub proof fn theorem_upsert_keeps_distinct(list: Seq<SubscriberView>, s: SubscriberView)
    requires
        distinct_urls(list),
    ensures
        distinct_urls(upsert(list, s)),
        has_url(upsert(list, s), s.url),
{
    let after = upsert(list, s);
    if has_url(list, s.url) {
        let i = index_of_url(list, s.url);
        assert(after[i].url == s.url);
        assert forall|a: int, b: int| 0 <= a < b < after.len() implies #[trigger] after[a].url
            != #[trigger] after[b].url by {
            assert(list[a].url != list[b].url);
        }
    } else {
        assert(after[list.len() as int].url == s.url);
        assert forall|a: int, b: int| 0 <= a < b < after.len() implies #[trigger] after[a].url
            != #[trigger] after[b].url by {
            if b < list.len() {
                assert(list[a].url != list[b].url);
            } else {
                assert(list[a].url != s.url);
            }
        }
    }
}

/// Unregistering a URL that is not registered changes nothing; and once a
/// URL was unregistered, it is not registered.
pub proof fn theorem_unregister(list: Seq<SubscriberView>, url: Seq<char>)
    requires
        distinct_urls(list),
    ensures
        !has_url(list, url) ==> without_url(list, url) == list,
        !has_url(without_url(list, url), url),
        without_url(without_url(list, url), url) == without_url(list, url),
        distinct_urls(without_url(list, url)),
{
    let after = without_url(list, url);
    if has_url(list, url) {
        let i = index_of_url(list, url);
        assert forall|k: int| 0 <= k < after.len() implies #[trigger] after[k].url != url by {
            let k0 = if k < i { k } else { k + 1 };
            assert(after[k] == list[k0]);
            if k0 < i {
                assert(list[k0].url != list[i].url);
            } else {
                assert(list[i].url != list[k0].url);
            }
        }
        assert forall|a: int, b: int| 0 <= a < b < after.len() implies #[trigger] after[a].url
            != #[trigger] after[b].url by {
            let a0 = if a < i { a } else { a + 1 };
            let b0 = if b < i { b } else { b + 1 };
            assert(list[a0].url != list[b0].url);
        }
    }
}

/// The subscribers registered under one topic.
struct TopicEntry {
    topic: String,
    subscribers: Vec<Subscriber>,
}

impl TopicEntry {
    /// The topic is named, at least one subscriber stands under it, each has
    /// a valid URL, and no two have the same.
    spec fn wf(&self) -> bool {
        &&& self.topic@.len() > 0
        &&& self.subscribers@.len() > 0
        &&& distinct_urls(views_of(self.subscribers@))
        &&& forall|i: int|
            0 <= i < self.subscribers@.len() ==> valid_url(#[trigger] self.subscribers@[i].url@)
    }
}

/// Every entry is well formed, and no topic has two entries.
spec fn entries_wf(entries: Seq<TopicEntry>) -> bool {
    &&& forall|i: int| 0 <= i < entries.len() ==> (#[trigger] entries[i]).wf()
    &&& forall|i: int, j: int|
        0 <= i < j < entries.len() ==> #[trigger] entries[i].topic@ != #[trigger] entries[j].topic@
}

/// Whether `topic` has an entry.
spec fn has_topic(entries: Seq<TopicEntry>, topic: Seq<char>) -> bool {
    exists|i: int| 0 <= i < entries.len() && #[trigger] entries[i].topic@ == topic
}

/// The subscribers that `entries` holds under `topic`.
spec fn lookup(entries: Seq<TopicEntry>, topic: Seq<char>) -> Seq<SubscriberView> {
    if has_topic(entries, topic) {
        let i = choose|i: int| 0 <= i < entries.len() && #[trigger] entries[i].topic@ == topic;
        views_of(entries[i].subscribers@)
    } else {
        Seq::empty()
    }
}

/// The entry of a topic holds the topic's subscribers.
proof fn lemma_entry(entries: Seq<TopicEntry>, i: int)
    requires
        entries_wf(entries),
        0 <= i < entries.len(),
    ensures
        lookup(entries, entries[i].topic@) == views_of(entries[i].subscribers@),
{
    let topic = entries[i].topic@;
    let k = choose|k: int| 0 <= k < entries.len() && #[trigger] entries[k].topic@ == topic;
    assert(k == i);
}

/// A topic whose entry is the same in `before` and `after` has the same
/// subscribers in both. `changed` is the one index at which the two may
/// differ, or at which `after` has an entry more.
proof fn lemma_same_elsewhere(
    after: Seq<TopicEntry>,
    before: Seq<TopicEntry>,
    topic: Seq<char>,
    changed: int,
)
    requires
        entries_wf(after),
        entries_wf(before),
        0 <= changed < after.len(),
        after[changed].topic@ != topic,
        before.len() == after.len() || (before.len() == changed && after.len() == changed + 1),
        forall|i: int| 0 <= i < before.len() && i != changed ==> #[trigger] after[i] == before[i],
        changed < before.len() ==> before[changed].topic@ == after[changed].topic@,
    ensures
        lookup(after, topic) == lookup(before, topic),
{
    if has_topic(before, topic) {
        let k = choose|k: int| 0 <= k < before.len() && #[trigger] before[k].topic@ == topic;
        assert(after[k] == before[k]);
        lemma_entry(before, k);
        lemma_entry(after, k);
    } else if has_topic(after, topic) {
        let k = choose|k: int| 0 <= k < after.len() && #[trigger] after[k].topic@ == topic;
        assert(after[k] == before[k]);
        assert(before[k].topic@ == topic);
    }
}

/// A topic other than the one whose entry was taken out has the same
/// subscribers as before.
proof fn lemma_same_after_removal(before: Seq<TopicEntry>, gone: int, topic: Seq<char>)
    requires
        entries_wf(before),
        0 <= gone < before.len(),
        before[gone].topic@ != topic,
    ensures
        lookup(before.remove(gone), topic) == lookup(before, topic),
{
    let after = before.remove(gone);
    lemma_removal_wf(before, gone);
    if has_topic(before, topic) {
        let k = choose|k: int| 0 <= k < before.len() && #[trigger] before[k].topic@ == topic;
        let moved = if k < gone {
            k
        } else {
            k - 1
        };
        assert(after[moved] == before[k]);
        lemma_entry(before, k);
        lemma_entry(after, moved);
    } else if has_topic(after, topic) {
        let k = choose|k: int| 0 <= k < after.len() && #[trigger] after[k].topic@ == topic;
        assert(before[if k < gone {
            k
        } else {
            k + 1
        }].topic@ == topic);
    }
}

/// Taking an entry out leaves the others well formed, and the topic of the
/// one taken out without an entry.
proof fn lemma_removal_wf(before: Seq<TopicEntry>, gone: int)
    requires
        entries_wf(before),
        0 <= gone < before.len(),
    ensures
        entries_wf(before.remove(gone)),
        !has_topic(before.remove(gone), before[gone].topic@),
{
    let after = before.remove(gone);
    assert forall|k: int| 0 <= k < after.len() implies #[trigger] after[k] == before[if k < gone {
        k
    } else {
        k + 1
    }] by {}
    assert forall|k: int| 0 <= k < after.len() implies (#[trigger] after[k]).wf() by {
        assert(before[if k < gone {
            k
        } else {
            k + 1
        }].wf());
    }
}

/// Putting a well-formed list of subscribers in the place of the list of the
/// entry at `i` leaves the entries well formed.
proof fn lemma_replacement_wf(before: Seq<TopicEntry>, after: Seq<TopicEntry>, i: int)
    requires
        entries_wf(before),
        0 <= i < before.len(),
        after.len() == before.len(),
        forall|k: int| 0 <= k < before.len() && k != i ==> #[trigger] after[k] == before[k],
        after[i].topic@ == before[i].topic@,
        after[i].wf(),
    ensures
        entries_wf(after),
{
    assert forall|k: int| 0 <= k < after.len() implies (#[trigger] after[k]).wf() by {
        if k != i {
            assert(before[k].wf());
        }
    }
    assert forall|a: int, b: int| 0 <= a < b < after.len() implies #[trigger] after[a].topic@
        != #[trigger] after[b].topic@ by {
        assert(after[a].topic@ == before[a].topic@);
        assert(after[b].topic@ == before[b].topic@);
    }
}

/// The index in `list` of the subscriber with the URL `url`.
fn find_url(list: &Vec<Subscriber>, url: &String) -> (r: Option<usize>)
    ensures
        match r {
            Some(i) => i < list@.len() && list@[i as int].url@ == url@,
            None => !has_url(views_of(list@), url@),
        },
{
    let mut i: usize = 0;
    while i < list.len()
        invariant
            i <= list@.len(),
            forall|k: int| 0 <= k < i ==> list@[k].url@ != url@,
        decreases list@.len() - i,
    {
        if list[i].url == *url {
            return Some(i);
        }
        i = i + 1;
    }
    assert forall|k: int| 0 <= k < views_of(list@).len() implies #[trigger] views_of(list@)[k].url
        != url@ by {
        assert(views_of(list@)[k] == list@[k]@);
    }
    None
}

/// The index in `entries` of the entry of `topic`.
fn find_topic(entries: &Vec<TopicEntry>, topic: &String) -> (r: Option<usize>)
    ensures
        match r {
            Some(i) => i < entries@.len() && entries@[i as int].topic@ == topic@,
            None => !has_topic(entries@, topic@),
        },
{
    let mut i: usize = 0;
    while i < entries.len()
        invariant
            i <= entries@.len(),
            forall|k: int| 0 <= k < i ==> entries@[k].topic@ != topic@,
        decreases entries@.len() - i,
    {
        if entries[i].topic == *topic {
            return Some(i);
        }
        i = i + 1;
    }
    None
}

/// Registers `subscriber` in the entry at `i`: in the place of the subscriber
/// with its URL, or behind the others.
fn upsert_into(entries: &mut Vec<TopicEntry>, i: usize, subscriber: Subscriber)
    requires
        entries_wf(old(entries)@),
        i < old(entries)@.len(),
        valid_url(subscriber@.url),
    ensures
        entries_wf(final(entries)@),
        final(entries)@.len() == old(entries)@.len(),
        forall|k: int|
            0 <= k < old(entries)@.len() && k != i ==> #[trigger] final(entries)@[k] == old(
                entries,
            )@[k],
        final(entries)@[i as int].topic@ == old(entries)@[i as int].topic@,
        views_of(final(entries)@[i as int].subscribers@) == upsert(
            views_of(old(entries)@[i as int].subscribers@),
            subscriber@,
        ),
{
    let ghost before = entries@;
    let ghost list_before = before[i as int].subscribers@;
    let ghost added = subscriber@;
    assert(before[i as int].wf());
    match find_url(&entries[i].subscribers, &subscriber.url) {
        Some(j) => {
            entries[i].subscribers[j] = subscriber;
            proof {
                let list = entries@[i as int].subscribers@;
                assert(views_of(list_before)[j as int] == list_before[j as int]@);
                lemma_index_of_url(views_of(list_before), j as int);
                assert(views_of(list) =~= views_of(list_before).update(j as int, added));
                assert forall|a: int, b: int| 0 <= a < b < list.len() implies #[trigger] views_of(
                    list,
                )[a].url != #[trigger] views_of(list)[b].url by {
                    assert(views_of(list_before)[a].url != views_of(list_before)[b].url);
                }
                assert forall|k: int| 0 <= k < list.len() implies valid_url(
                    #[trigger] list[k].url@,
                ) by {
                    if k != j {
                        assert(list[k] == list_before[k]);
                    }
                }
            }
        },
        None => {
            entries[i].subscribers.push(subscriber);
            proof {
                let list = entries@[i as int].subscribers@;
                assert(views_of(list) =~= views_of(list_before).push(added));
                assert forall|a: int, b: int| 0 <= a < b < list.len() implies #[trigger] views_of(
                    list,
                )[a].url != #[trigger] views_of(list)[b].url by {
                    if b < list_before.len() {
                        assert(views_of(list_before)[a].url != views_of(list_before)[b].url);
                    } else {
                        assert(views_of(list_before)[a].url != added.url);
                    }
                }
                assert forall|k: int| 0 <= k < list.len() implies valid_url(
                    #[trigger] list[k].url@,
                ) by {
                    if k < list_before.len() {
                        assert(list[k] == list_before[k]);
                    }
                }
            }
        },
    }
    proof {
        lemma_replacement_wf(before, entries@, i as int);
    }
}

/// Takes the subscriber at `j` out of the entry at `i`, which holds others
/// too.
fn remove_from(entries: &mut Vec<TopicEntry>, i: usize, j: usize)
    requires
        entries_wf(old(entries)@),
        i < old(entries)@.len(),
        j < old(entries)@[i as int].subscribers@.len(),
        old(entries)@[i as int].subscribers@.len() > 1,
    ensures
        entries_wf(final(entries)@),
        final(entries)@.len() == old(entries)@.len(),
        forall|k: int|
            0 <= k < old(entries)@.len() && k != i ==> #[trigger] final(entries)@[k] == old(
                entries,
            )@[k],
        final(entries)@[i as int].topic@ == old(entries)@[i as int].topic@,
        views_of(final(entries)@[i as int].subscribers@) == views_of(
            old(entries)@[i as int].subscribers@,
        ).remove(j as int),
{
    let ghost before = entries@;
    let ghost list_before = before[i as int].subscribers@;
    assert(before[i as int].wf());
    entries[i].subscribers.remove(j);
    proof {
        let list = entries@[i as int].subscribers@;
        assert(views_of(list) =~= views_of(list_before).remove(j as int));
        assert forall|a: int, b: int| 0 <= a < b < list.len() implies #[trigger] views_of(
            list,
        )[a].url != #[trigger] views_of(list)[b].url by {
            let a0 = if a < j {
                a
            } else {
                a + 1
            };
            let b0 = if b < j {
                b
            } else {
                b + 1
            };
            assert(views_of(list_before)[a0].url != views_of(list_before)[b0].url);
        }
        assert forall|k: int| 0 <= k < list.len() implies valid_url(#[trigger] list[k].url@) by {
            assert(list[k] == list_before[if k < j {
                k
            } else {
                k + 1
            }]);
        }
        lemma_replacement_wf(before, entries@, i as int);
    }
}

/// The registry: for each topic, the subscribers registered under it, in the
/// order in which they first registered. Under one topic no two subscribers
/// have the same URL.
pub struct Registry {
    topics: Vec<TopicEntry>,
}

impl Registry {
    /// What holds of every registry: each registered URL is valid, no topic
    /// holds one twice, and no subscriber stands under the empty topic.
    #[verifier::type_invariant]
    pub closed spec fn wf(&self) -> bool {
        entries_wf(self.topics@)
    }

    /// The subscribers registered under `topic`, in the order in which they
    /// first registered; none for a topic that nothing was registered under.
    pub closed spec fn subscribers(&self, topic: Seq<char>) -> Seq<SubscriberView> {
        lookup(self.topics@, topic)
    }

    /// Under every topic the subscribers have valid URLs, no two of them the
    /// same; and no subscriber stands under the empty topic.
    pub proof fn lemma_subscribers(&self, topic: Seq<char>)
        requires
            self.wf(),
        ensures
            distinct_urls(self.subscribers(topic)),
            forall|i: int|
                0 <= i < self.subscribers(topic).len() ==> valid_url(
                    #[trigger] self.subscribers(topic)[i].url,
                ),
            topic.len() == 0 ==> self.subscribers(topic).len() == 0,
    {
        if has_topic(self.topics@, topic) {
            let k = choose|k: int|
                0 <= k < self.topics@.len() && #[trigger] self.topics@[k].topic@ == topic;
            assert(self.topics@[k].wf());
            let list = self.topics@[k].subscribers@;
            assert forall|i: int| 0 <= i < views_of(list).len() implies valid_url(
                #[trigger] views_of(list)[i].url,
            ) by {
                assert(valid_url(list[i].url@));
            }
        }
    }

    /// A registry without subscribers.
    pub fn new() -> (r: Registry)
        ensures
            forall|topic: Seq<char>| (#[trigger] r.subscribers(topic)).len() == 0,
    {
        Registry { topics: Vec::new() }
    }

    /// Registers `subscriber` under `topic`. Where a subscriber with the same
    /// URL is registered there, the new one takes its place; otherwise the
    /// new one is added behind the others. An empty topic and a URL that is
    /// no absolute HTTP or HTTPS URL are refused, and the registry stays as
    /// it was.
    pub fn register(&mut self, topic: &str, subscriber: Subscriber) -> (r: Result<
        (),
        ValidationError,
    >)
        ensures
            forall|other: Seq<char>|
                other != topic@ ==> #[trigger] final(self).subscribers(other) == old(
                    self,
                ).subscribers(other),
            match r {
                Ok(_) => {
                    &&& topic@.len() > 0
                    &&& valid_url(subscriber@.url)
                    &&& final(self).subscribers(topic@) == upsert(
                        old(self).subscribers(topic@),
                        subscriber@,
                    )
                },
                Err(e) => {
                    &&& final(self).subscribers(topic@) == old(self).subscribers(topic@)
                    &&& e == if topic@.len() == 0 {
                        ValidationError::EmptyTopic
                    } else {
                        ValidationError::MalformedUrl
                    }
                    &&& topic@.len() == 0 || !valid_url(subscriber@.url)
                },
            },
    {
        if topic.is_empty() {
            return Err(ValidationError::EmptyTopic);
        }
        if !is_valid_url(subscriber.url.as_str()) {
            return Err(ValidationError::MalformedUrl);
        }
        proof {
            use_type_invariant(&*self);
        }
        let key: String = topic.to_owned();
        let ghost before = self.topics@;
        let ghost added = subscriber@;
        let mut topics: Vec<TopicEntry> = Vec::new();
        core::mem::swap(&mut self.topics, &mut topics);
        match find_topic(&topics, &key) {
            None => {
                let mut list: Vec<Subscriber> = Vec::new();
                list.push(subscriber);
                topics.push(TopicEntry { topic: key, subscribers: list });
                proof {
                    let last = topics@.len() - 1;
                    assert(views_of(topics@[last].subscribers@) =~= Seq::empty().push(added));
                    assert(topics@[last].wf());
                    assert forall|i: int| 0 <= i < topics@.len() implies (
                    #[trigger] topics@[i]).wf() by {
                        if i < last {
                            assert(before[i].wf());
                        }
                    }
                    assert(entries_wf(topics@));
                    lemma_entry(topics@, last);
                    assert forall|other: Seq<char>| other != topic@ implies lookup(topics@, other)
                        == lookup(before, other) by {
                        lemma_same_elsewhere(topics@, before, other, last);
                    }
                }
            },
            Some(i) => {
                proof {
                    lemma_entry(before, i as int);
                }
                upsert_into(&mut topics, i, subscriber);
                proof {
                    lemma_entry(topics@, i as int);
                    assert forall|other: Seq<char>| other != topic@ implies lookup(topics@, other)
                        == lookup(before, other) by {
                        lemma_same_elsewhere(topics@, before, other, i as int);
                    }
                }
            },
        }
        self.topics = topics;
        Ok(())
    }

    /// Unregisters the subscriber with the URL `url` from `topic`. Where none
    /// is registered there, nothing changes.
    pub fn unregister(&mut self, topic: &str, url: &str)
        ensures
            final(self).subscribers(topic@) == without_url(old(self).subscribers(topic@), url@),
            !has_url(old(self).subscribers(topic@), url@) ==> final(self).subscribers(topic@)
                == old(self).subscribers(topic@),
            forall|other: Seq<char>|
                other != topic@ ==> #[trigger] final(self).subscribers(other) == old(
                    self,
                ).subscribers(other),
    {
        proof {
            use_type_invariant(&*self);
        }
        let key: String = topic.to_owned();
        let wanted: String = url.to_owned();
        let ghost before = self.topics@;
        let i: usize = match find_topic(&self.topics, &key) {
            Some(i) => i,
            None => {
                return ;
            },
        };
        proof {
            lemma_entry(before, i as int);
            assert(before[i as int].wf());
        }
        let ghost list_before = before[i as int].subscribers@;
        let j: usize = match find_url(&self.topics[i].subscribers, &wanted) {
            Some(j) => j,
            None => {
                return ;
            },
        };
        proof {
            assert(views_of(list_before)[j as int] == list_before[j as int]@);
            lemma_index_of_url(views_of(list_before), j as int);
        }
        let mut topics: Vec<TopicEntry> = Vec::new();
        core::mem::swap(&mut self.topics, &mut topics);
        if topics[i].subscribers.len() == 1 {
            topics.remove(i);
            proof {
                assert(views_of(list_before).remove(j as int) =~= Seq::empty());
                lemma_removal_wf(before, i as int);
                assert forall|other: Seq<char>| other != topic@ implies lookup(topics@, other)
                    == lookup(before, other) by {
                    lemma_same_after_removal(before, i as int, other);
                }
            }
        } else {
            remove_from(&mut topics, i, j);
            proof {
                lemma_entry(topics@, i as int);
                assert forall|other: Seq<char>| other != topic@ implies lookup(topics@, other)
                    == lookup(before, other) by {
                    lemma_same_elsewhere(topics@, before, other, i as int);
                }
            }
        }
        self.topics = topics;
    }

    /// A copy of the subscribers registered under `topic`, in the order in
    /// which they first registered. The copy is the caller's own: what is
    /// registered or unregistered later does not show in it.
    pub fn snapshot(&self, topic: &str) -> (r: Vec<Subscriber>)
        ensures
            views_of(r@) == self.subscribers(topic@),
    {
        proof {
            use_type_invariant(self);
        }
        let key: String = topic.to_owned();
        let mut out: Vec<Subscriber> = Vec::new();
        match find_topic(&self.topics, &key) {
            None => {
                assert(views_of(out@) =~= Seq::empty());
            },
            Some(i) => {
                proof {
                    lemma_entry(self.topics@, i as int);
                }
                let list = &self.topics[i].subscribers;
                let mut k: usize = 0;
                while k < list.len()
                    invariant
                        k <= list@.len(),
                        out@.len() == k,
                        forall|j: int| 0 <= j < k ==> out@[j]@ == list@[j]@,
                    decreases list@.len() - k,
                {
                    out.push(list[k].clone());
                    k = k + 1;
                }
                assert(views_of(out@) =~= views_of(list@));
            },
        }
        out
    }
}

} // verus!
