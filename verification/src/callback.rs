//! Which callbacks a message is handed to.
//!
//! A callback is known by its number; whoever registers one keeps the code that is called.

use crate::error::{MqttError, Result};
use crate::id_map::IdMap;
use crate::text::{owned, same_text};
use crate::text_map::TextMap;
use crate::topic::{
    is_wildcard_filter, strip_shared_subscription_prefix, topic_matches_filter,
    validate_subscription_filter,
};
use vstd::prelude::*;

verus! {

/// The number of a callback.
pub type CallbackId = u64;

/// A callback and the filter that it was registered for.
#[derive(Debug)]
pub struct CallbackEntry {
    pub id: CallbackId,
    pub topic_filter: String,
}

impl Clone for CallbackEntry {
    fn clone(&self) -> (r: Self)
        ensures
            r == *self,
    {
        CallbackEntry { id: self.id, topic_filter: self.topic_filter.clone() }
    }
}

/// The callbacks of a client.
#[derive(Debug)]
pub struct CallbackManager {
    exact_callbacks: TextMap<Vec<CallbackEntry>>,
    wildcard_callbacks: Vec<CallbackEntry>,
    callback_registry: IdMap<String>,
    next_id: u64,
}

/// The numbers in a list of callbacks.
pub open spec fn numbers(list: Seq<CallbackEntry>) -> Seq<CallbackId> {
    list.map_values(|e: CallbackEntry| e.id)
}

/// Of a list of callbacks, the numbers of those whose filters match a topic, in order.
pub open spec fn matching(list: Seq<CallbackEntry>, topic: Seq<char>) -> Seq<CallbackId>
    decreases list.len(),
{
    if list.len() == 0 {
        Seq::empty()
    } else {
        let rest = matching(list.drop_last(), topic);
        let last = list.last();
        if crate::topic::topic_matches(topic, crate::topic::unshared(last.topic_filter@)) {
            rest.push(last.id)
        } else {
            rest
        }
    }
}

/// The callbacks for other filters.
pub open spec fn others(list: Seq<CallbackEntry>, topic_filter: Seq<char>) -> Seq<CallbackEntry> {
    list.filter(|e: CallbackEntry| e.topic_filter@ != topic_filter)
}

/// The registered filters that differ from one.
pub open spec fn other_filters(registry: Map<u64, String>, topic_filter: Seq<char>) -> Map<
    u64,
    String,
> {
    Map::new(
        |k: u64| registry.contains_key(k) && registry[k]@ != topic_filter,
        |k: u64| registry[k],
    )
}

/// Whether a callback is in a list.
pub open spec fn listed(list: Seq<CallbackEntry>, id: CallbackId) -> bool {
    exists|i: int| 0 <= i < list.len() && (#[trigger] list[i]).id == id
}

/// The callbacks that a message on a topic is handed to: those for the topic itself, then those
/// whose filters match it.
pub open spec fn called(
    topics: Map<Seq<char>, Seq<CallbackEntry>>,
    filters: Seq<CallbackEntry>,
    topic: Seq<char>,
) -> Seq<CallbackId> {
    (if topics.contains_key(topic) {
        numbers(topics[topic])
    } else {
        Seq::empty()
    }) + matching(filters, topic)
}

impl CallbackManager {
    /// The callbacks for topics.
    pub closed spec fn by_topic(&self) -> Map<Seq<char>, Seq<CallbackEntry>> {
        self.exact_callbacks@.map_values(|v: Vec<CallbackEntry>| v@)
    }

    /// The callbacks for filters with wildcards, in order.
    pub closed spec fn by_filter(&self) -> Seq<CallbackEntry> {
        self.wildcard_callbacks@
    }

    /// The filters of the callbacks that can be restored.
    pub closed spec fn registry(&self) -> Map<u64, String> {
        self.callback_registry@
    }

    /// The number of the callback that comes next.
    pub closed spec fn upcoming(&self) -> CallbackId {
        self.next_id
    }

    /// No topic and no number stands twice.
    pub closed spec fn wf(&self) -> bool {
        self.exact_callbacks.wf() && self.callback_registry.wf()
    }

    /// There are no callbacks.
    pub fn new() -> (r: Self)
        ensures
            r.wf(),
            r.by_topic() == Map::<Seq<char>, Seq<CallbackEntry>>::empty(),
            r.by_filter() == Seq::<CallbackEntry>::empty(),
            r.registry() == Map::<u64, String>::empty(),
            r.upcoming() == 1,
    {
        let r = CallbackManager {
            exact_callbacks: TextMap::new(),
            wildcard_callbacks: Vec::new(),
            callback_registry: IdMap::new(),
            next_id: 1,
        };
        assert(r.by_topic() =~= Map::<Seq<char>, Seq<CallbackEntry>>::empty());
        r
    }

    /// The callbacks for topics after one more was put in place.
    pub open spec fn placed_by_topic(
        topics: Map<Seq<char>, Seq<CallbackEntry>>,
        entry: CallbackEntry,
    ) -> Map<Seq<char>, Seq<CallbackEntry>> {
        let actual = crate::topic::unshared(entry.topic_filter@);
        if crate::topic::has_wildcard(actual) {
            topics
        } else if topics.contains_key(actual) {
            topics.insert(actual, topics[actual].push(entry))
        } else {
            topics.insert(actual, seq![entry])
        }
    }

    /// The callbacks for filters after one more was put in place.
    pub open spec fn placed_by_filter(filters: Seq<CallbackEntry>, entry: CallbackEntry) -> Seq<
        CallbackEntry,
    > {
        if crate::topic::has_wildcard(crate::topic::unshared(entry.topic_filter@)) {
            filters.push(entry)
        } else {
            filters
        }
    }

    fn register_internal(&mut self, entry: CallbackEntry)
        requires
            old(self).wf(),
        ensures
            final(self).wf(),
            final(self).by_topic() == CallbackManager::placed_by_topic(old(self).by_topic(), entry),
            final(self).by_filter() == CallbackManager::placed_by_filter(
                old(self).by_filter(),
                entry,
            ),
            final(self).registry() == old(self).registry(),
            final(self).upcoming() == old(self).upcoming(),
    {
        let ghost topics = self.by_topic();
        let actual_filter = strip_shared_subscription_prefix(entry.topic_filter.as_str());
        if is_wildcard_filter(actual_filter.as_str()) {
            self.wildcard_callbacks.push(entry);
        } else if self.exact_callbacks.contains_key(actual_filter.as_str()) {
            if let Some(entries) = self.exact_callbacks.get_mut(actual_filter.as_str()) {
                entries.push(entry);
            }
            assert(self.by_topic() =~= CallbackManager::placed_by_topic(topics, entry));
        } else {
            let mut entries: Vec<CallbackEntry> = Vec::new();
            entries.push(entry);
            assert(entries@ =~= seq![entry]);
            let _ = self.exact_callbacks.insert(actual_filter, entries);
            assert(self.by_topic() =~= CallbackManager::placed_by_topic(topics, entry));
        }
    }

    /// The manager after a callback for a filter was registered under the upcoming number.
    pub open spec fn registered(&self, before: &CallbackManager, topic_filter: String) -> bool {
        let entry = CallbackEntry { id: before.upcoming(), topic_filter };
        &&& self.upcoming() == (before.upcoming() + 1) % 0x1_0000_0000_0000_0000
        &&& self.registry() == before.registry().insert(before.upcoming(), topic_filter)
        &&& self.by_topic() == CallbackManager::placed_by_topic(before.by_topic(), entry)
        &&& self.by_filter() == CallbackManager::placed_by_filter(before.by_filter(), entry)
    }

    /// Registers a callback for a filter and gives its number. A number that is still in use, which
    /// can only be after all numbers were given out, is an error; the next attempt takes the next
    /// number.
    pub fn register_with_id(&mut self, topic_filter: String) -> (r: Result<CallbackId>)
        requires
            old(self).wf(),
        ensures
            final(self).wf(),
            r is Err <==> old(self).registry().contains_key(old(self).upcoming()),
            match r {
                Ok(id) => id == old(self).upcoming() && final(self).registered(
                    old(self),
                    topic_filter,
                ),
                Err(e) => {
                    &&& e matches MqttError::InvalidState(t) && t@
                        == "Callback is already registered"@
                    &&& final(self).skipped(old(self))
                },
            },
    {
        let id: u64 = self.next_id;
        self.next_id = id.wrapping_add(1);
        if self.callback_registry.contains_key(id) {
            return Err(MqttError::InvalidState(owned("Callback is already registered")));
        }
        let _ = self.callback_registry.insert(id, topic_filter.clone());
        self.register_internal(CallbackEntry { id, topic_filter });
        Ok(id)
    }

    /// Only the upcoming number is one higher.
    pub open spec fn skipped(&self, before: &CallbackManager) -> bool {
        &&& self.upcoming() == (before.upcoming() + 1) % 0x1_0000_0000_0000_0000
        &&& self.registry() == before.registry()
        &&& self.by_topic() == before.by_topic()
        &&& self.by_filter() == before.by_filter()
    }

    /// Registers a callback for a filter.
    pub fn register(&mut self, topic_filter: String) -> (r: Result<()>)
        requires
            old(self).wf(),
        ensures
            final(self).wf(),
            r is Err <==> old(self).registry().contains_key(old(self).upcoming()),
            match r {
                Ok(_) => final(self).registered(old(self), topic_filter),
                Err(e) => {
                    &&& e matches MqttError::InvalidState(t) && t@
                        == "Callback is already registered"@
                    &&& final(self).skipped(old(self))
                },
            },
    {
        match self.register_with_id(topic_filter) {
            Ok(_) => Ok(()),
            Err(e) => Err(e),
        }
    }

    /// Whether a callback is in place.
    pub open spec fn in_place(&self, id: CallbackId, topic_filter: Seq<char>) -> bool {
        let actual = crate::topic::unshared(topic_filter);
        if crate::topic::has_wildcard(actual) {
            listed(self.by_filter(), id)
        } else {
            self.by_topic().contains_key(actual) && listed(self.by_topic()[actual], id)
        }
    }

    fn is_listed(list: &Vec<CallbackEntry>, id: CallbackId) -> (r: bool)
        ensures
            r == listed(list@, id),
    {
        let mut i: usize = 0;
        while i < list.len()
            invariant
                i <= list@.len(),
                forall|j: int| 0 <= j < i ==> (#[trigger] list@[j]).id != id,
            decreases list@.len() - i,
        {
            if list[i].id == id {
                assert(list@[i as int].id == id);
                return true;
            }
            i = i + 1;
        }
        false
    }

    /// Puts a registered callback in place again, unless it is; `false` says that its number is
    /// not known.
    pub fn restore_callback(&mut self, id: CallbackId) -> (r: bool)
        requires
            old(self).wf(),
        ensures
            final(self).wf(),
            r == old(self).registry().contains_key(id),
            final(self).registry() == old(self).registry(),
            final(self).upcoming() == old(self).upcoming(),
            if r && !old(self).in_place(id, old(self).registry()[id]@) {
                let entry = CallbackEntry { id, topic_filter: old(self).registry()[id] };
                &&& final(self).by_topic() == CallbackManager::placed_by_topic(
                    old(self).by_topic(),
                    entry,
                )
                &&& final(self).by_filter() == CallbackManager::placed_by_filter(
                    old(self).by_filter(),
                    entry,
                )
            } else {
                *final(self) == *old(self)
            },
    {
        let topic_filter = match self.callback_registry.get(id) {
            Some(filter) => filter.clone(),
            None => {
                return false;
            },
        };
        let actual_filter = strip_shared_subscription_prefix(topic_filter.as_str());
        let already_registered = if is_wildcard_filter(actual_filter.as_str()) {
            CallbackManager::is_listed(&self.wildcard_callbacks, id)
        } else {
            match self.exact_callbacks.get(actual_filter.as_str()) {
                Some(entries) => CallbackManager::is_listed(entries, id),
                None => false,
            }
        };
        if !already_registered {
            self.register_internal(CallbackEntry { id, topic_filter });
        }
        true
    }

    fn drop_filter(&mut self, topic_filter: &str) -> (r: bool)
        requires
            old(self).wf(),
        ensures
            final(self).wf(),
            final(self).by_topic() == old(self).by_topic(),
            final(self).by_filter() == others(old(self).by_filter(), topic_filter@),
            final(self).registry() == old(self).registry(),
            final(self).upcoming() == old(self).upcoming(),
            r == (others(old(self).by_filter(), topic_filter@).len()
                < old(self).by_filter().len()),
    {
        let ghost all = self.wildcard_callbacks@;
        let ghost other = |e: CallbackEntry| e.topic_filter@ != topic_filter@;
        let before: usize = self.wildcard_callbacks.len();
        let mut taken: Vec<CallbackEntry> = Vec::new();
        std::mem::swap(&mut taken, &mut self.wildcard_callbacks);
        let mut kept: Vec<CallbackEntry> = Vec::new();
        proof {
            reveal(Seq::filter);
        }
        assert(all.take(0) =~= Seq::<CallbackEntry>::empty());
        for entry in it: taken
            invariant
                it.seq() == all,
                other == (|e: CallbackEntry| e.topic_filter@ != topic_filter@),
                kept@ == all.take(it.index() as int).filter(other),
        {
            proof {
                reveal(Seq::filter);
                assert(all.take(it.index() + 1).drop_last() =~= all.take(it.index() as int));
                assert(all.take(it.index() + 1).last() == entry);
            }
            if !same_text(entry.topic_filter.as_str(), topic_filter) {
                kept.push(entry);
            }
        }
        assert(all.take(all.len() as int) =~= all);
        let fewer = kept.len() < before;
        self.wildcard_callbacks = kept;
        fewer
    }

    fn forget_filter(&mut self, topic_filter: &str) -> (r: bool)
        requires
            old(self).wf(),
        ensures
            final(self).wf(),
            final(self).by_topic() == old(self).by_topic(),
            final(self).by_filter() == old(self).by_filter(),
            final(self).registry() == other_filters(old(self).registry(), topic_filter@),
            final(self).upcoming() == old(self).upcoming(),
            r == exists|k: u64| #[trigger]
                old(self).registry().contains_key(k) && old(self).registry()[k]@ == topic_filter@,
    {
        let ghost origin = *self;
        let ghost all = self.callback_registry@;
        let mut removed = false;
        let mut i: usize = 0;
        while i < self.callback_registry.len()
            invariant
                self.wf(),
                i <= self.callback_registry.listing().len(),
                self.by_topic() == origin.by_topic(),
                self.by_filter() == origin.by_filter(),
                self.upcoming() == origin.upcoming(),
                all == origin.registry(),
                other_filters(self.callback_registry@, topic_filter@) == other_filters(
                    all,
                    topic_filter@,
                ),
                forall|k: u64| #[trigger]
                    self.callback_registry@.contains_key(k) ==> all.contains_key(k)
                        && self.callback_registry@[k] == all[k],
                removed == exists|k: u64| #[trigger]
                    all.contains_key(k) && all[k]@ == topic_filter@
                        && !self.callback_registry@.contains_key(k),
                forall|j: int|
                    0 <= j < i ==> (#[trigger] self.callback_registry.listing()[j]).1@
                        != topic_filter@,
            decreases self.callback_registry.listing().len() - i,
        {
            let ghost before = self.callback_registry;
            proof {
                crate::id_map::lemma_as_map(before.listing());
            }
            if same_text(self.callback_registry.value_at(i).as_str(), topic_filter) {
                let ghost key = before.listing()[i as int].0;
                let _ = self.callback_registry.remove_at(i);
                removed = true;
                proof {
                    assert(before@.contains_key(key));
                    assert(all.contains_key(key) && all[key]@ == topic_filter@);
                    assert(other_filters(self.callback_registry@, topic_filter@) =~= other_filters(
                        before@,
                        topic_filter@,
                    ));
                    assert forall|j: int| 0 <= j < i implies (
                    #[trigger] self.callback_registry.listing()[j]).1@ != topic_filter@ by {
                        assert(self.callback_registry.listing()[j] == before.listing()[j]);
                    }
                }
            } else {
                i = i + 1;
            }
        }
        proof {
            crate::id_map::lemma_as_map(self.callback_registry.listing());
            assert forall|k: u64| #[trigger]
                self.callback_registry@.contains_key(k) implies self.callback_registry@[k]@
                != topic_filter@ by {
                let j = choose|j: int|
                    0 <= j < self.callback_registry.listing().len() && (
                    #[trigger] self.callback_registry.listing()[j]).0 == k;
            }
            assert(self.callback_registry@ =~= other_filters(
                self.callback_registry@,
                topic_filter@,
            ));
        }
        removed
    }

    /// The manager without the callbacks for a filter; `removed` says whether there were any.
    pub open spec fn without_filter(
        &self,
        before: &CallbackManager,
        topic_filter: Seq<char>,
        removed: bool,
    ) -> bool {
        let actual = crate::topic::unshared(topic_filter);
        let known = exists|k: u64| #[trigger]
            before.registry().contains_key(k) && before.registry()[k]@ == topic_filter;
        if crate::topic::has_wildcard(actual) {
            &&& self.by_topic() == before.by_topic()
            &&& self.by_filter() == others(before.by_filter(), topic_filter)
            &&& removed == (known || others(before.by_filter(), topic_filter).len()
                < before.by_filter().len())
        } else {
            &&& self.by_filter() == before.by_filter()
            &&& self.by_topic() == before.by_topic().remove(actual)
            &&& removed == (known || before.by_topic().contains_key(actual))
        }
    }

    /// Removes the callbacks for a filter; `true` says that there were any. The callbacks for a
    /// topic go together, whatever group their filters name. A filter that nobody can subscribe to
    /// is an error.
    pub fn unregister(&mut self, topic_filter: &str) -> (r: Result<bool>)
        requires
            old(self).wf(),
        ensures
            final(self).wf(),
            final(self).upcoming() == old(self).upcoming(),
            r is Err <==> !crate::topic::valid_subscription_filter(topic_filter@),
            r matches Err(e) ==> (e matches MqttError::InvalidTopicFilter(t) && t@
                == topic_filter@) && *final(self) == *old(self),
            r matches Ok(removed) ==> {
                &&& final(self).registry() == other_filters(old(self).registry(), topic_filter@)
                &&& final(self).without_filter(old(self), topic_filter@, removed)
            },
    {
        if let Err(e) = validate_subscription_filter(topic_filter) {
            return Err(e);
        }
        let removed_from_registry = self.forget_filter(topic_filter);
        let actual_filter = strip_shared_subscription_prefix(topic_filter);
        let removed_from_callbacks = if is_wildcard_filter(actual_filter.as_str()) {
            self.drop_filter(topic_filter)
        } else {
            let ghost topics = self.by_topic();
            let removed = self.exact_callbacks.remove(actual_filter.as_str()).is_some();
            assert(self.by_topic() =~= topics.remove(actual_filter@));
            removed
        };
        Ok(removed_from_registry || removed_from_callbacks)
    }

    /// The callbacks that a message on a topic is handed to, in order.
    pub fn dispatch(&self, topic: &str) -> (r: Vec<CallbackId>)
        requires
            self.wf(),
        ensures
            r@ == called(self.by_topic(), self.by_filter(), topic@),
    {
        let mut out: Vec<CallbackId> = Vec::new();
        if let Some(entries) = self.exact_callbacks.get(topic) {
            let mut i: usize = 0;
            while i < entries.len()
                invariant
                    i <= entries@.len(),
                    out@ =~= numbers(entries@).take(i as int),
                decreases entries@.len() - i,
            {
                out.push(entries[i].id);
                i = i + 1;
            }
        }
        let ghost first = out@;
        assert(first =~= if self.by_topic().contains_key(topic@) {
            numbers(self.by_topic()[topic@])
        } else {
            Seq::empty()
        });
        let ghost list = self.wildcard_callbacks@;
        let mut j: usize = 0;
        assert(list.take(0) =~= Seq::<CallbackEntry>::empty());
        assert(first + matching(list.take(0), topic@) =~= first);
        while j < self.wildcard_callbacks.len()
            invariant
                list == self.wildcard_callbacks@,
                j <= list.len(),
                out@ == first + matching(list.take(j as int), topic@),
            decreases list.len() - j,
        {
            assert(list.take(j + 1).drop_last() =~= list.take(j as int));
            assert(list.take(j + 1).last() == list[j as int]);
            let filter = strip_shared_subscription_prefix(
                self.wildcard_callbacks[j].topic_filter.as_str(),
            );
            if topic_matches_filter(topic, filter.as_str()) {
                out.push(self.wildcard_callbacks[j].id);
                assert(out@ =~= first + matching(list.take(j + 1), topic@));
            }
            j = j + 1;
        }
        assert(list.take(list.len() as int) =~= list);
        out
    }

    /// The number of registered callbacks.
    pub fn callback_count(&self) -> (r: usize)
        requires
            self.wf(),
        ensures
            r == self.registry().dom().len(),
    {
        self.callback_registry.len()
    }

    /// Removes every callback.
    pub fn clear(&mut self)
        ensures
            final(self).wf(),
            final(self).by_topic() == Map::<Seq<char>, Seq<CallbackEntry>>::empty(),
            final(self).by_filter() == Seq::<CallbackEntry>::empty(),
            final(self).registry() == Map::<u64, String>::empty(),
            final(self).upcoming() == old(self).upcoming(),
    {
        self.exact_callbacks.clear();
        self.wildcard_callbacks.clear();
        self.callback_registry.clear();
        assert(self.by_topic() =~= Map::<Seq<char>, Seq<CallbackEntry>>::empty());
    }
}

impl Default for CallbackManager {
    fn default() -> (r: Self)
        ensures
            r.wf(),
            r.by_topic() == Map::<Seq<char>, Seq<CallbackEntry>>::empty(),
            r.by_filter() == Seq::<CallbackEntry>::empty(),
            r.registry() == Map::<u64, String>::empty(),
            r.upcoming() == 1,
    {
        CallbackManager::new()
    }
}

/// A callback whose number is new is called for exactly the topics that its filter matches.
pub proof fn law_callback_is_called_for_matching_topics(
    topics: Map<Seq<char>, Seq<CallbackEntry>>,
    filters: Seq<CallbackEntry>,
    entry: CallbackEntry,
    topic: Seq<char>,
)
    requires
        !called(topics, filters, topic).contains(entry.id),
        !crate::topic::has_wildcard(topic),
    ensures
        called(
            CallbackManager::placed_by_topic(topics, entry),
            CallbackManager::placed_by_filter(filters, entry),
            topic,
        ).contains(entry.id) <==> crate::topic::topic_matches(
            topic,
            crate::topic::unshared(entry.topic_filter@),
        ),
{
    let actual = crate::topic::unshared(entry.topic_filter@);
    let before = called(topics, filters, topic);
    let new_topics = CallbackManager::placed_by_topic(topics, entry);
    let new_filters = CallbackManager::placed_by_filter(filters, entry);
    let after = called(new_topics, new_filters, topic);
    let first = if topics.contains_key(topic) {
        numbers(topics[topic])
    } else {
        Seq::empty()
    };
    if crate::topic::has_wildcard(actual) {
        assert(new_filters.drop_last() =~= filters);
        if crate::topic::topic_matches(topic, actual) {
            assert(after =~= before.push(entry.id));
            assert(after[after.len() - 1] == entry.id);
        } else {
            assert(after =~= before);
        }
    } else {
        if crate::topic::topic_matches(topic, actual) {
            crate::topic::lemma_plain_filter_matches_itself_only(topic, actual);
        }
        if topic == actual {
            crate::topic::lemma_topic_matches_itself(topic);
            let own = numbers(new_topics[topic]);
            assert(own =~= first.push(entry.id));
            assert(own[own.len() - 1] == entry.id);
            assert(after[own.len() - 1] == entry.id);
        } else {
            assert(after =~= before);
        }
    }
}

/// A message is handed to the callbacks for its topic, and then to those for filters with wildcards
/// that match it, each time in the order in which they came.
pub proof fn law_callbacks_are_called_in_order(
    topics: Map<Seq<char>, Seq<CallbackEntry>>,
    filters: Seq<CallbackEntry>,
    topic: Seq<char>,
)
    ensures
        ({
            let own = if topics.contains_key(topic) {
                topics[topic]
            } else {
                Seq::empty()
            };
            let fitting = filters.filter(
                |e: CallbackEntry|
                    crate::topic::topic_matches(topic, crate::topic::unshared(e.topic_filter@)),
            );
            called(topics, filters, topic) == (own + fitting).map_values(
                |e: CallbackEntry| e.id,
            )
        }),
{
    let own = if topics.contains_key(topic) {
        topics[topic]
    } else {
        Seq::empty()
    };
    let fitting = filters.filter(
        |e: CallbackEntry|
            crate::topic::topic_matches(topic, crate::topic::unshared(e.topic_filter@)),
    );
    lemma_matching(filters, topic);
    assert(called(topics, filters, topic) =~= (own + fitting).map_values(
        |e: CallbackEntry| e.id,
    ));
}

proof fn lemma_matching(list: Seq<CallbackEntry>, topic: Seq<char>)
    ensures
        matching(list, topic) == list.filter(
            |e: CallbackEntry|
                crate::topic::topic_matches(topic, crate::topic::unshared(e.topic_filter@)),
        ).map_values(|e: CallbackEntry| e.id),
    decreases list.len(),
{
    reveal(Seq::filter);
    let fits = |e: CallbackEntry|
        crate::topic::topic_matches(topic, crate::topic::unshared(e.topic_filter@));
    if list.len() > 0 {
        lemma_matching(list.drop_last(), topic);
    }
    assert(matching(list, topic) =~= list.filter(fits).map_values(|e: CallbackEntry| e.id));
}

/// A callback that was registered has a number of its own and is called for exactly the topics that
/// its filter matches.
pub proof fn law_registered_callback_is_called(
    before: CallbackManager,
    after: CallbackManager,
    topic_filter: String,
    topic: Seq<char>,
)
    requires
        after.registered(&before, topic_filter),
        !called(before.by_topic(), before.by_filter(), topic).contains(before.upcoming()),
        !crate::topic::has_wildcard(topic),
    ensures
        called(after.by_topic(), after.by_filter(), topic).contains(before.upcoming())
            <==> crate::topic::topic_matches(topic, crate::topic::unshared(topic_filter@)),
        after.registry().contains_key(before.upcoming()),
        after.registry()[before.upcoming()]@ == topic_filter@,
        before.upcoming() < u64::MAX ==> after.upcoming() > before.upcoming(),
{
    law_callback_is_called_for_matching_topics(
        before.by_topic(),
        before.by_filter(),
        CallbackEntry { id: before.upcoming(), topic_filter },
        topic,
    );
}

/// After a filter was unregistered no callback is left for it, and those for other filters are all
/// there.
pub proof fn law_unregistered_filter_has_no_callbacks(
    before: CallbackManager,
    after: CallbackManager,
    topic_filter: Seq<char>,
    removed: bool,
    entry: CallbackEntry,
    topic: Seq<char>,
)
    requires
        after.without_filter(&before, topic_filter, removed),
        topic != crate::topic::unshared(topic_filter),
    ensures
        crate::topic::has_wildcard(crate::topic::unshared(topic_filter)) ==> (
        after.by_filter().contains(entry) <==> before.by_filter().contains(entry)
            && entry.topic_filter@ != topic_filter),
        !crate::topic::has_wildcard(crate::topic::unshared(topic_filter))
            ==> !after.by_topic().contains_key(crate::topic::unshared(topic_filter))
            && after.by_filter() == before.by_filter(),
        after.by_topic().contains_key(topic) == before.by_topic().contains_key(topic),
        before.by_topic().contains_key(topic) ==> after.by_topic()[topic]
            == before.by_topic()[topic],
{
    let list = before.by_filter();
    if crate::topic::has_wildcard(crate::topic::unshared(topic_filter)) {
        lemma_others(list, topic_filter, entry);
    }
}

proof fn lemma_others(list: Seq<CallbackEntry>, topic_filter: Seq<char>, entry: CallbackEntry)
    ensures
        others(list, topic_filter).contains(entry) <==> list.contains(entry)
            && entry.topic_filter@ != topic_filter,
    decreases list.len(),
{
    reveal(Seq::filter);
    if list.len() > 0 {
        let init = list.drop_last();
        lemma_others(init, topic_filter, entry);
        assert(list =~= init.push(list.last()));
        vstd::seq_lib::lemma_seq_contains_after_push(init, list.last(), entry);
        vstd::seq_lib::lemma_seq_contains_after_push(
            others(init, topic_filter),
            list.last(),
            entry,
        );
    }
}

/// Unregistering a filter forgets the numbers of its callbacks, and no other number.
pub proof fn law_other_numbers_stay(registry: Map<u64, String>, topic_filter: Seq<char>, id: u64)
    ensures
        other_filters(registry, topic_filter).contains_key(id) <==> registry.contains_key(id)
            && registry[id]@ != topic_filter,
        other_filters(registry, topic_filter).contains_key(id) ==> other_filters(
            registry,
            topic_filter,
        )[id] == registry[id],
{
}

/// Unregistering tells whether there was a callback for the filter: there was one if a number was
/// given out for it, and for a topic without wildcards if it has callbacks.
pub proof fn law_unregistering_tells_whether_there_was_a_callback(
    before: CallbackManager,
    after: CallbackManager,
    topic_filter: Seq<char>,
    removed: bool,
    id: u64,
)
    requires
        after.without_filter(&before, topic_filter, removed),
    ensures
        before.registry().contains_key(id) && before.registry()[id]@ == topic_filter ==> removed,
        !crate::topic::has_wildcard(crate::topic::unshared(topic_filter))
            && before.by_topic().contains_key(crate::topic::unshared(topic_filter)) ==> removed,
        removed && before.registry().dom() == Set::<u64>::empty() && !crate::topic::has_wildcard(
            crate::topic::unshared(topic_filter),
        ) ==> before.by_topic().contains_key(crate::topic::unshared(topic_filter)),
{
    if before.registry().contains_key(id) {
        assert(before.registry().dom().contains(id));
    }
    if before.registry().dom() == Set::<u64>::empty() {
        assert forall|k: u64| !(#[trigger] before.registry().contains_key(k)) by {
            assert(!before.registry().dom().contains(k));
        }
    }
}

} // verus!
