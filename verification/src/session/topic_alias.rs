//! Short numbers that stand for topics on a connection.

use crate::error::{MqttError, Result};
use crate::id_map::IdMap;
use crate::text::owned;
use crate::text_map::TextMap;
use vstd::prelude::*;

verus! {

/// The aliases of a connection.
#[derive(Debug)]
pub struct TopicAliasManager {
    topic_alias_maximum: u16,
    next_alias: u32,
    topics: IdMap<String>,
    aliases: TextMap<u16>,
}

impl TopicAliasManager {
    /// The largest alias that may be used.
    pub closed spec fn maximum(&self) -> u16 {
        self.topic_alias_maximum
    }

    /// The alias that a topic without one gets next.
    pub closed spec fn next(&self) -> int {
        self.next_alias as int
    }

    /// The topics by alias.
    pub closed spec fn topics(&self) -> Map<u64, String> {
        self.topics@
    }

    /// The aliases by topic.
    pub closed spec fn aliases(&self) -> Map<Seq<char>, u16> {
        self.aliases@
    }

    /// No alias and no topic stands twice, and what comes next is an alias.
    pub closed spec fn wf(&self) -> bool {
        &&& self.topics.wf()
        &&& self.aliases.wf()
        &&& 1 <= self.next_alias <= 0x1_0000
    }

    /// No topic has an alias.
    pub fn new(topic_alias_maximum: u16) -> (r: Self)
        ensures
            r.wf(),
            r.maximum() == topic_alias_maximum,
            r.next() == 1,
            r.topics() == Map::<u64, String>::empty(),
            r.aliases() == Map::<Seq<char>, u16>::empty(),
    {
        TopicAliasManager {
            topic_alias_maximum,
            next_alias: 1,
            topics: IdMap::new(),
            aliases: TextMap::new(),
        }
    }

    /// The largest alias that may be used.
    pub fn topic_alias_maximum(&self) -> (r: u16)
        ensures
            r == self.maximum(),
    {
        self.topic_alias_maximum
    }

    /// The alias of a topic. One without an alias gets the next one, if the maximum allows it.
    pub fn get_or_create_alias(&mut self, topic: &str) -> (r: Option<u16>)
        requires
            old(self).wf(),
        ensures
            final(self).wf(),
            final(self).maximum() == old(self).maximum(),
            if old(self).aliases().contains_key(topic@) {
                &&& r == Some(old(self).aliases()[topic@])
                &&& *final(self) == *old(self)
            } else if old(self).next() > old(self).maximum() {
                &&& r is None
                &&& *final(self) == *old(self)
            } else {
                &&& r == Some(old(self).next() as u16)
                &&& final(self).next() == old(self).next() + 1
                &&& final(self).aliases() == old(self).aliases().insert(
                    topic@,
                    old(self).next() as u16,
                )
                &&& final(self).topics().contains_key(old(self).next() as u64)
                &&& final(self).topics()[old(self).next() as u64]@ == topic@
                &&& final(self).topics() == old(self).topics().insert(
                    old(self).next() as u64,
                    final(self).topics()[old(self).next() as u64],
                )
            },
    {
        if let Some(alias) = self.aliases.get(topic) {
            return Some(*alias);
        }
        if self.next_alias > self.topic_alias_maximum as u32 {
            return None;
        }
        let alias: u16 = self.next_alias as u16;
        self.next_alias = self.next_alias + 1;
        let _ = self.topics.insert(alias as u64, owned(topic));
        let _ = self.aliases.insert(owned(topic), alias);
        Some(alias)
    }

    /// The aliases by topic after an alias was given to a topic: the topic that had the alias has
    /// none.
    pub open spec fn realiased(
        topics: Map<u64, String>,
        aliases: Map<Seq<char>, u16>,
        alias: u16,
        topic: Seq<char>,
    ) -> Map<Seq<char>, u16> {
        if topics.contains_key(alias as u64) {
            aliases.remove(topics[alias as u64]@).insert(topic, alias)
        } else {
            aliases.insert(topic, alias)
        }
    }

    /// Gives an alias to a topic. Zero and numbers above the maximum are no aliases.
    pub fn register_alias(&mut self, alias: u16, topic: &str) -> (r: Result<()>)
        requires
            old(self).wf(),
        ensures
            final(self).wf(),
            final(self).maximum() == old(self).maximum(),
            final(self).next() == old(self).next(),
            match r {
                Err(e) => {
                    &&& alias == 0 || alias > old(self).maximum()
                    &&& e == MqttError::TopicAliasInvalid(alias)
                    &&& *final(self) == *old(self)
                },
                Ok(()) => {
                    &&& 0 < alias <= old(self).maximum()
                    &&& final(self).topics().contains_key(alias as u64)
                    &&& final(self).topics()[alias as u64]@ == topic@
                    &&& final(self).topics() == old(self).topics().insert(
                        alias as u64,
                        final(self).topics()[alias as u64],
                    )
                    &&& final(self).aliases() == TopicAliasManager::realiased(
                        old(self).topics(),
                        old(self).aliases(),
                        alias,
                        topic@,
                    )
                },
            },
    {
        if alias == 0 || alias > self.topic_alias_maximum {
            return Err(MqttError::TopicAliasInvalid(alias));
        }
        if let Some(before) = self.topics.insert(alias as u64, owned(topic)) {
            let _ = self.aliases.remove(before.as_str());
        }
        let _ = self.aliases.insert(owned(topic), alias);
        Ok(())
    }

    /// The topic of an alias.
    pub fn get_topic(&self, alias: u16) -> (r: Option<&str>)
        requires
            self.wf(),
        ensures
            match r {
                Some(topic) => self.topics().contains_key(alias as u64) && topic@
                    == self.topics()[alias as u64]@,
                None => !self.topics().contains_key(alias as u64),
            },
    {
        match self.topics.get(alias as u64) {
            Some(topic) => Some(topic.as_str()),
            None => None,
        }
    }

    /// The alias of a topic.
    pub fn get_alias(&self, topic: &str) -> (r: Option<u16>)
        requires
            self.wf(),
        ensures
            r == (if self.aliases().contains_key(topic@) {
                Some(self.aliases()[topic@])
            } else {
                None
            }),
    {
        match self.aliases.get(topic) {
            Some(alias) => Some(*alias),
            None => None,
        }
    }

    /// Takes every alias back.
    pub fn clear(&mut self)
        ensures
            final(self).wf(),
            final(self).maximum() == old(self).maximum(),
            final(self).next() == 1,
            final(self).topics() == Map::<u64, String>::empty(),
            final(self).aliases() == Map::<Seq<char>, u16>::empty(),
    {
        self.topics.clear();
        self.aliases.clear();
        self.next_alias = 1;
    }
}

/// An alias belongs to the topic it was given to last: the topic that had it has no alias any more, and
/// the alias of no other topic changes.
pub proof fn law_alias_belongs_to_its_last_topic(
    topics: Map<u64, String>,
    aliases: Map<Seq<char>, u16>,
    alias: u16,
    topic: Seq<char>,
    other: Seq<char>,
)
    requires
        other != topic,
    ensures
        ({
            let after = TopicAliasManager::realiased(topics, aliases, alias, topic);
            let had_it = topics.contains_key(alias as u64) && topics[alias as u64]@ == other;
            &&& after.contains_key(topic)
            &&& after[topic] == alias
            &&& after.contains_key(other) <==> aliases.contains_key(other) && !had_it
            &&& after.contains_key(other) ==> after[other] == aliases[other]
        }),
{
}

} // verus!
