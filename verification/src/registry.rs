use vstd::prelude::*;

use crate::text::{distinct, lemma_push_to_set, sort_distinct, strictly_sorted, texts};

verus! {

/// A registered subscriber connection.
#[derive(Debug, Clone)]
pub struct Subscriber {
    /// Stable identifier used to unregister the subscriber (e.g. `stdout_subscriber`).
    pub id: String,
    /// `true` when the subscriber receives every topic (subscribe-all).
    pub all: bool,
    /// Specific topics the subscriber is interested in (each at most once).
    pub topics: Vec<String>,
}

impl Subscriber {
    /// The subscriber receives messages published under `topic`.
    pub open spec fn receives(&self, topic: Seq<char>) -> bool {
        self.all || texts(self.topics@).contains(topic)
    }

    /// The set of specific topics.
    pub open spec fn topic_set(&self) -> Set<Seq<char>> {
        texts(self.topics@).to_set()
    }

    /// A subscriber that receives every current and future topic.
    pub fn all(id: &str) -> (s: Self)
        ensures
            s.id@ == id@,
            s.all,
            s.topics@.len() == 0,
    {
        Subscriber { id: String::from_str(id), all: true, topics: Vec::new() }
    }

    /// A subscriber interested in the given specific topics; a topic listed
    /// more than once is kept once.
    pub fn topics(id: &str, topics: Vec<String>) -> (s: Self)
        ensures
            s.id@ == id@,
            !s.all,
            s.topic_set() == texts(topics@).to_set(),
            distinct(texts(s.topics@)),
    {
        let mut kept: Vec<String> = Vec::new();
        let ghost given = topics@;
        for t in it: topics.into_iter()
            invariant
                it.seq() == given,
                distinct(texts(kept@)),
                texts(kept@).to_set() == texts(it.seq().take(it.index() as int)).to_set(),
        {
            let ghost seen = it.seq().take(it.index() as int);
            proof {
                assert(it.seq().take(it.index() + 1) == seen.push(t));
                assert(texts(seen.push(t)) == texts(seen).push(t@));
            }
            if !contains_text(&kept, &t) {
                let ghost before = kept@;
                kept.push(t);
                proof {
                    assert(texts(kept@) == texts(before).push(t@));
                    lemma_push_to_set(texts(before), t@);
                    lemma_push_to_set(texts(seen), t@);
                    assert forall|i: int, j: int|
                        0 <= i < j < texts(kept@).len() implies #[trigger] texts(kept@)[i]
                        != #[trigger] texts(kept@)[j] by {
                        if j == before.len() {
                            assert(texts(before).contains(texts(before)[i]));
                        } else {
                            assert(texts(kept@)[i] == texts(before)[i]);
                            assert(texts(kept@)[j] == texts(before)[j]);
                        }
                    }
                }
            } else {
                proof {
                    lemma_push_to_set(texts(seen), t@);
                    assert(texts(kept@).to_set().contains(t@));
                    assert(texts(kept@).to_set().insert(t@) == texts(kept@).to_set());
                }
            }
        }
        proof {
            assert(given.take(given.len() as int) == given);
        }
        Subscriber { id: String::from_str(id), all: false, topics: kept }
    }

    /// Whether this subscriber receives `topic`.
    pub fn receives_topic(&self, topic: &String) -> (b: bool)
        ensures
            b == self.receives(topic@),
            b == (self.all || exists|i: int|
                0 <= i < self.topics@.len() && #[trigger] self.topics@[i]@ == topic@),
    {
        proof {
            lemma_receives_exact(*self, topic@);
        }
        self.all || contains_text(&self.topics, topic)
    }
}

/// Whether `v` holds a string with the text of `t`.
fn contains_text(v: &Vec<String>, t: &String) -> (b: bool)
    ensures
        b == texts(v@).contains(t@),
{
    let mut i: usize = 0;
    while i < v.len()
        invariant
            i <= v@.len(),
            forall|j: int| 0 <= j < i ==> v@[j]@ != t@,
        decreases v@.len() - i,
    {
        if v[i] == *t {
            proof {
                assert(texts(v@)[i as int] == t@);
            }
            return true;
        }
        i = i + 1;
    }
    proof {
        if texts(v@).contains(t@) {
            let j = choose|j: int| 0 <= j < texts(v@).len() && texts(v@)[j] == t@;
            assert(v@[j]@ == t@);
        }
    }
    false
}

/// How many of `subs` receive `topic`.
pub open spec fn count_receiving(subs: Seq<Subscriber>, topic: Seq<char>) -> nat
    decreases subs.len(),
{
    if subs.len() == 0 {
        0
    } else {
        count_receiving(subs.drop_last(), topic) + if subs.last().receives(topic) {
            1nat
        } else {
            0nat
        }
    }
}

/// `subs` without the subscribers whose id is `id`, the others in order.
pub open spec fn without_id(subs: Seq<Subscriber>, id: Seq<char>) -> Seq<Subscriber>
    decreases subs.len(),
{
    if subs.len() == 0 {
        seq![]
    } else if subs.last().id@ == id {
        without_id(subs.drop_last(), id)
    } else {
        without_id(subs.drop_last(), id).push(subs.last())
    }
}

/// Some subscriber of `subs` has the id `id`.
pub open spec fn has_id(subs: Seq<Subscriber>, id: Seq<char>) -> bool {
    exists|i: int| 0 <= i < subs.len() && #[trigger] subs[i].id@ == id
}

/// Tracks per-topic subscriber counts and the set of known topics.
///
/// NNG PUB/SUB does not expose subscription state to the publisher, so the
/// marketdata service keeps its own registry of known subscribers and counts
/// subscribers per topic from it.
#[derive(Debug)]
pub struct SubscriberRegistry {
    subscribers: Vec<Subscriber>,
    known_topics: Vec<String>,
}

impl SubscriberRegistry {
    /// Each known topic is held once.
    #[verifier::type_invariant]
    spec fn well_formed(self) -> bool {
        distinct(texts(self.known_topics@))
    }

    /// The registered subscribers, in the order they were added.
    pub closed spec fn subscribers(self) -> Seq<Subscriber> {
        self.subscribers@
    }

    /// The topics that were published or that some subscriber asked for.
    pub closed spec fn known_topics(self) -> Set<Seq<char>> {
        texts(self.known_topics@).to_set()
    }

    /// An empty registry.
    pub fn new() -> (r: Self)
        ensures
            r.subscribers() == Seq::<Subscriber>::empty(),
            r.known_topics() == Set::<Seq<char>>::empty(),
    {
        let r = SubscriberRegistry { subscribers: Vec::new(), known_topics: Vec::new() };
        proof {
            assert(texts(r.known_topics@).to_set() =~= Set::<Seq<char>>::empty());
        }
        r
    }

    /// Add `topic` to the known topics unless it is there already.
    fn insert_known(&mut self, topic: &String)
        ensures
            final(self).subscribers() == old(self).subscribers(),
            final(self).known_topics() == old(self).known_topics().insert(topic@),
    {
        proof {
            use_type_invariant(&*self);
        }
        if contains_text(&self.known_topics, topic) {
            proof {
                assert(texts(self.known_topics@).to_set().contains(topic@));
                assert(self.known_topics().insert(topic@) == self.known_topics());
            }
        } else {
            let ghost before = self.known_topics@;
            let mut topics: Vec<String> = Vec::new();
            std::mem::swap(&mut topics, &mut self.known_topics);
            topics.push(topic.clone());
            proof {
                assert(texts(topics@) == texts(before).push(topic@));
                lemma_push_to_set(texts(before), topic@);
                assert forall|i: int, j: int|
                    0 <= i < j < texts(topics@).len() implies #[trigger] texts(topics@)[i]
                    != #[trigger] texts(topics@)[j] by {
                    if j == before.len() {
                        assert(texts(before).contains(texts(before)[i]));
                    } else {
                        assert(texts(topics@)[i] == texts(before)[i]);
                        assert(texts(topics@)[j] == texts(before)[j]);
                    }
                }
            }
            self.known_topics = topics;
        }
    }

    /// Register a subscriber; its specific topics become known topics.
    pub fn add(&mut self, subscriber: Subscriber)
        ensures
            final(self).subscribers() == old(self).subscribers().push(subscriber),
            final(self).known_topics() == old(self).known_topics().union(subscriber.topic_set()),
    {
        let n = subscriber.topics.len();
        let mut i: usize = 0;
        while i < n
            invariant
                n == subscriber.topics@.len(),
                i <= n,
                self.subscribers() == old(self).subscribers(),
                self.known_topics() == old(self).known_topics().union(
                    texts(subscriber.topics@.take(i as int)).to_set(),
                ),
            decreases n - i,
        {
            self.insert_known(&subscriber.topics[i]);
            proof {
                let done = subscriber.topics@.take(i as int);
                assert(subscriber.topics@.take(i + 1) == done.push(subscriber.topics@[i as int]));
                assert(texts(done.push(subscriber.topics@[i as int])) == texts(done).push(
                    subscriber.topics@[i as int]@,
                ));
                lemma_push_to_set(texts(done), subscriber.topics@[i as int]@);
                assert(self.known_topics() =~= old(self).known_topics().union(
                    texts(subscriber.topics@.take(i + 1)).to_set(),
                ));
            }
            i = i + 1;
        }
        proof {
            assert(subscriber.topics@.take(n as int) == subscriber.topics@);
        }
        proof {
            use_type_invariant(&*self);
        }
        let mut subscribers: Vec<Subscriber> = Vec::new();
        std::mem::swap(&mut subscribers, &mut self.subscribers);
        subscribers.push(subscriber);
        self.subscribers = subscribers;
    }

    /// Unregister the subscribers with id `id`; returns `true` when there was one.
    pub fn remove(&mut self, id: &str) -> (removed: bool)
        ensures
            final(self).subscribers() == without_id(old(self).subscribers(), id@),
            final(self).known_topics() == old(self).known_topics(),
            removed == has_id(old(self).subscribers(), id@),
    {
        proof {
            use_type_invariant(&*self);
        }
        let target = String::from_str(id);
        let mut all: Vec<Subscriber> = Vec::new();
        std::mem::swap(&mut all, &mut self.subscribers);
        let ghost given = all@;
        let mut kept: Vec<Subscriber> = Vec::new();
        let mut found = false;
        for s in it: all.into_iter()
            invariant
                it.seq() == given,
                kept@ == without_id(given.take(it.index() as int), id@),
                target@ == id@,
                found == has_id(given.take(it.index() as int), id@),
        {
            let ghost done = given.take(it.index() as int);
            proof {
                assert(given.take(it.index() + 1) == done.push(s));
                assert(given.take(it.index() + 1).drop_last() == done);
            }
            if s.id == target {
                found = true;
                proof {
                    assert(done.push(s)[done.len() as int] == s);
                }
            } else {
                kept.push(s);
                proof {
                    if has_id(done.push(s), id@) {
                        let k = choose|k: int| 0 <= k < done.len() + 1 && #[trigger] done.push(s)[k].id@ == id@;
                        assert(done[k] == done.push(s)[k]);
                    }
                }
            }
            proof {
                if found && has_id(done, id@) {
                    let k = choose|k: int| 0 <= k < done.len() && #[trigger] done[k].id@ == id@;
                    assert(done.push(s)[k] == done[k]);
                }
            }
        }
        proof {
            assert(given.take(given.len() as int) == given);
        }
        self.subscribers = kept;
        found
    }

    /// Record that a topic was published; used to report topics even when
    /// all subscribers use subscribe-all semantics.
    pub fn record_topic(&mut self, topic: &str)
        ensures
            final(self).subscribers() == old(self).subscribers(),
            final(self).known_topics() == old(self).known_topics().insert(topic@),
    {
        let t = String::from_str(topic);
        self.insert_known(&t);
    }

    /// Number of subscribers receiving `topic` (subscribe-all plus specific).
    pub fn count_for_topic(&self, topic: &str) -> (n: usize)
        ensures
            n == count_receiving(self.subscribers(), topic@),
    {
        let t = String::from_str(topic);
        self.count_receiving_text(&t)
    }

    fn count_receiving_text(&self, topic: &String) -> (n: usize)
        ensures
            n == count_receiving(self.subscribers(), topic@),
    {
        let mut n: usize = 0;
        let mut i: usize = 0;
        while i < self.subscribers.len()
            invariant
                i <= self.subscribers@.len(),
                n == count_receiving(self.subscribers@.take(i as int), topic@),
                n <= i,
            decreases self.subscribers@.len() - i,
        {
            proof {
                assert(self.subscribers@.take(i + 1).drop_last() == self.subscribers@.take(i as int));
            }
            if self.subscribers[i].receives_topic(topic) {
                n = n + 1;
            }
            i = i + 1;
        }
        proof {
            assert(self.subscribers@.take(i as int) == self.subscribers@);
        }
        n
    }

    /// Total number of registered subscribers.
    pub fn subscriber_count(&self) -> (n: usize)
        ensures
            n == self.subscribers().len(),
    {
        self.subscribers.len()
    }

    /// Snapshot of `(topic, count)` for every known topic, sorted by topic.
    pub fn snapshot_counts(&self) -> (counts: Vec<(String, usize)>)
        ensures
            strictly_sorted(snapshot_topics(counts@)),
            snapshot_topics(counts@).to_set() == self.known_topics(),
            forall|i: int|
                0 <= i < counts@.len() ==> #[trigger] counts@[i].1 == count_receiving(
                    self.subscribers(),
                    counts@[i].0@,
                ),
    {
        proof {
            use_type_invariant(self);
        }
        let topics = sort_distinct(self.known_topics.clone());
        let mut counts: Vec<(String, usize)> = Vec::new();
        let mut i: usize = 0;
        while i < topics.len()
            invariant
                i <= topics@.len(),
                snapshot_topics(counts@) == texts(topics@).take(i as int),
                forall|k: int|
                    0 <= k < counts@.len() ==> #[trigger] counts@[k].1 == count_receiving(
                        self.subscribers(),
                        counts@[k].0@,
                    ),
            decreases topics@.len() - i,
        {
            let n = self.count_receiving_text(&topics[i]);
            let ghost before = counts@;
            counts.push((topics[i].clone(), n));
            proof {
                assert(snapshot_topics(counts@) == snapshot_topics(before).push(topics@[i as int]@));
                assert(texts(topics@).take(i + 1) == texts(topics@).take(i as int).push(
                    topics@[i as int]@,
                ));
            }
            i = i + 1;
        }
        proof {
            assert(texts(topics@).take(i as int) == texts(topics@));
        }
        counts
    }
}

/// The topics of a snapshot, in order.
pub open spec fn snapshot_topics(counts: Seq<(String, usize)>) -> Seq<Seq<char>> {
    counts.map_values(|c: (String, usize)| c.0@)
}

/// How many subscribers of `subs` with the id `id` receive `topic`.
pub open spec fn count_receiving_with_id(subs: Seq<Subscriber>, id: Seq<char>, topic: Seq<char>) -> nat
    decreases subs.len(),
{
    if subs.len() == 0 {
        0
    } else {
        count_receiving_with_id(subs.drop_last(), id, topic) + if subs.last().id@ == id
            && subs.last().receives(topic) {
            1nat
        } else {
            0nat
        }
    }
}

/// Registering a subscriber raises the count of every topic it receives by
/// one and leaves the count of every other topic unchanged.
pub proof fn lemma_add_counts(subs: Seq<Subscriber>, s: Subscriber, topic: Seq<char>)
    ensures
        count_receiving(subs.push(s), topic) == count_receiving(subs, topic) + if s.receives(
            topic,
        ) {
            1nat
        } else {
            0nat
        },
{
    assert(subs.push(s).drop_last() == subs);
}

/// Unregistering an id lowers the count of a topic by the number of
/// subscribers with that id that received it.
pub proof fn lemma_remove_counts(subs: Seq<Subscriber>, id: Seq<char>, topic: Seq<char>)
    ensures
        count_receiving(without_id(subs, id), topic) + count_receiving_with_id(subs, id, topic)
            == count_receiving(subs, topic),
    decreases subs.len(),
{
    if subs.len() > 0 {
        lemma_remove_counts(subs.drop_last(), id, topic);
        let rest = without_id(subs.drop_last(), id);
        if subs.last().id@ != id {
            assert(rest.push(subs.last()).drop_last() == rest);
        }
    }
}

/// Unregistering an id that no subscriber has changes nothing.
pub proof fn lemma_remove_absent_id(subs: Seq<Subscriber>, id: Seq<char>)
    requires
        !has_id(subs, id),
    ensures
        without_id(subs, id) == subs,
    decreases subs.len(),
{
    if subs.len() > 0 {
        assert(!has_id(subs.drop_last(), id)) by {
            if has_id(subs.drop_last(), id) {
                let k = choose|k: int| 0 <= k < subs.len() - 1 && #[trigger] subs.drop_last()[k].id@ == id;
                assert(subs[k].id@ == id);
            }
        }
        lemma_remove_absent_id(subs.drop_last(), id);
        assert(subs.last().id@ != id) by {
            assert(subs[subs.len() - 1].id@ == subs.last().id@);
        }
        assert(subs.drop_last().push(subs.last()) == subs);
    }
}

/// Unregistering a subscriber whose id was new when it was registered undoes
/// the registration: the other subscribers stay, in order.
pub proof fn lemma_remove_undoes_add(subs: Seq<Subscriber>, s: Subscriber)
    requires
        !has_id(subs, s.id@),
    ensures
        without_id(subs.push(s), s.id@) == subs,
{
    assert(subs.push(s).drop_last() == subs);
    lemma_remove_absent_id(subs, s.id@);
}

/// A subscriber receives a topic exactly when it subscribes to all topics or
/// one of its topics is that very text (no prefix or partial matching).
pub proof fn lemma_receives_exact(s: Subscriber, topic: Seq<char>)
    ensures
        s.receives(topic) == (s.all || exists|i: int|
            0 <= i < s.topics@.len() && #[trigger] s.topics@[i]@ == topic),
{
    if texts(s.topics@).contains(topic) {
        let i = choose|i: int| 0 <= i < texts(s.topics@).len() && texts(s.topics@)[i] == topic;
        assert(s.topics@[i]@ == topic);
    }
    if exists|i: int| 0 <= i < s.topics@.len() && #[trigger] s.topics@[i]@ == topic {
        let i = choose|i: int| 0 <= i < s.topics@.len() && #[trigger] s.topics@[i]@ == topic;
        assert(texts(s.topics@)[i] == topic);
    }
}

} // verus!
