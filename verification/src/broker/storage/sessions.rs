//! Client sessions and the subscriptions that they keep.

use super::is_past;
use crate::error::{MqttError, Result};
use crate::text::{owned, share};
use crate::text_map::TextMap;
use crate::types::{ProtocolVersion, QoS};
use std::sync::Arc;
use vstd::prelude::*;

verus! {

/// A subscription as a session keeps it.
#[derive(Debug, Clone, Copy, PartialEq, Eq, Structural)]
pub struct StoredSubscription {
    pub qos: QoS,
    pub no_local: bool,
    pub retain_as_published: bool,
    pub retain_handling: u8,
    pub subscription_id: Option<u32>,
    pub protocol_version: ProtocolVersion,
    pub change_only: bool,
}

/// The state that outlives a client's connection.
#[derive(Debug)]
pub struct ClientSession {
    pub client_id: String,
    pub persistent: bool,
    pub expiry_interval: Option<u32>,
    pub subscriptions: Arc<TextMap<StoredSubscription>>,
    pub created_at: u64,
    pub last_seen: u64,
}

impl Clone for ClientSession {
    fn clone(&self) -> (r: Self)
        ensures
            r == *self,
    {
        ClientSession {
            client_id: self.client_id.clone(),
            persistent: self.persistent,
            expiry_interval: self.expiry_interval,
            subscriptions: share(&self.subscriptions),
            created_at: self.created_at,
            last_seen: self.last_seen,
        }
    }
}

impl ClientSession {
    /// No filter stands twice.
    pub open spec fn wf(&self) -> bool {
        self.subscriptions.wf()
    }

    /// Whether the session has outlived its expiry interval.
    pub open spec fn expired(&self, now: u64) -> bool {
        crate::broker::storage::past(
            crate::broker::storage::deadline_after(self.last_seen, self.expiry_interval),
            now,
        )
    }

    /// The session is new: it has no subscriptions, and its client was just seen.
    pub open spec fn is_new(
        &self,
        client_id: Seq<char>,
        persistent: bool,
        expiry_interval: Option<u32>,
        now: u64,
    ) -> bool {
        &&& self.client_id@ == client_id
        &&& self.persistent == persistent
        &&& self.expiry_interval == expiry_interval
        &&& self.subscriptions@ == Map::<Seq<char>, StoredSubscription>::empty()
        &&& self.created_at == now
        &&& self.last_seen == now
        &&& self.wf()
    }

    /// The session with its client seen at a moment.
    pub open spec fn touched(self, now: u64) -> ClientSession {
        ClientSession { last_seen: now, ..self }
    }

    /// The session differs from an earlier one in its subscriptions, and its client was seen.
    pub open spec fn resubscribed(
        self,
        before: ClientSession,
        subscriptions: Map<Seq<char>, StoredSubscription>,
        now: u64,
    ) -> bool {
        &&& self == (ClientSession {
            subscriptions: self.subscriptions,
            last_seen: now,
            ..before
        })
        &&& self.subscriptions@ == subscriptions
        &&& self.wf()
    }

    /// A session without subscriptions.
    pub fn new(
        client_id: String,
        persistent: bool,
        expiry_interval: Option<u32>,
        now: u64,
    ) -> (r: Self)
        ensures
            r.is_new(client_id@, persistent, expiry_interval, now),
    {
        ClientSession {
            client_id,
            persistent,
            expiry_interval,
            subscriptions: Arc::new(TextMap::new()),
            created_at: now,
            last_seen: now,
        }
    }

    /// Whether the session has outlived its expiry interval.
    pub fn is_expired(&self, now: u64) -> (r: bool)
        ensures
            r == self.expired(now),
    {
        is_past(super::deadline_from(self.last_seen, self.expiry_interval), now)
    }

    /// Records that the client was seen.
    pub fn touch(&mut self, now: u64)
        ensures
            *final(self) == old(self).touched(now),
    {
        self.last_seen = now;
    }

    /// Adds or replaces the subscription to a filter.
    pub fn add_subscription(&mut self, topic_filter: String, subscription: StoredSubscription)
        requires
            old(self).wf(),
        ensures
            final(self).resubscribed(
                *old(self),
                old(self).subscriptions@.insert(topic_filter@, subscription),
                old(self).last_seen,
            ),
    {
        let mut subscriptions = self.subscriptions.copied();
        let _ = subscriptions.insert(topic_filter, subscription);
        self.subscriptions = Arc::new(subscriptions);
    }

    /// Drops the subscription to a filter.
    pub fn remove_subscription(&mut self, topic_filter: &str)
        requires
            old(self).wf(),
        ensures
            final(self).resubscribed(
                *old(self),
                old(self).subscriptions@.remove(topic_filter@),
                old(self).last_seen,
            ),
    {
        let mut subscriptions = self.subscriptions.copied();
        let _ = subscriptions.remove(topic_filter);
        self.subscriptions = Arc::new(subscriptions);
    }
}

/// Sessions by client.
pub type Sessions = Map<Seq<char>, ClientSession>;

/// The session that a lookup finds: an expired one counts as absent.
pub open spec fn found(sessions: Sessions, client_id: Seq<char>, now: u64) -> Option<ClientSession> {
    if sessions.contains_key(client_id) && !sessions[client_id].expired(now) {
        Some(sessions[client_id])
    } else {
        None
    }
}

/// The sessions after a lookup: an expired one has been removed.
pub open spec fn looked_up(sessions: Sessions, client_id: Seq<char>, now: u64) -> Sessions {
    if sessions.contains_key(client_id) && sessions[client_id].expired(now) {
        sessions.remove(client_id)
    } else {
        sessions
    }
}

/// The session with which a client connects: after a clean start a new one, which persists only if
/// it has an expiry interval; otherwise the one that is kept, and where there is none a new one that
/// persists.
pub open spec fn opened(
    before: Sessions,
    client_id: Seq<char>,
    session: ClientSession,
    clean_start: bool,
    expiry_interval: Option<u32>,
    now: u64,
) -> bool {
    if clean_start {
        session.is_new(client_id, expiry_interval is Some, expiry_interval, now)
    } else {
        match found(before, client_id, now) {
            Some(kept) => session == kept.touched(now),
            None => session.is_new(client_id, true, expiry_interval, now),
        }
    }
}

/// What a store holds, and which sessions it cannot remove.
pub struct Holding {
    /// The sessions that are kept.
    pub stored: Sessions,
    /// The error with which the store refuses to remove a client's session, if it does.
    pub refusal: spec_fn(Seq<char>) -> Option<MqttError>,
}

/// The holding of a store that does not say what it holds: some function of the store.
pub open spec fn unstated<S: ?Sized>(store: &S) -> Holding {
    arbitrary::<spec_fn(&S) -> Holding>()(store)
}

/// Where sessions are kept.
pub trait SessionStore {
    /// The sessions that are kept.
    open spec fn stored(&self) -> Sessions {
        unstated(self).stored
    }

    /// The store is in order: every session is.
    open spec fn valid(&self) -> bool {
        true
    }

    /// The error with which the store refuses to remove a client's session, if it does.
    open spec fn refusal(&self, client_id: Seq<char>) -> Option<MqttError> {
        (unstated(self).refusal)(client_id)
    }

    /// Keeps a session under its client's name.
    fn store_session(&mut self, session: ClientSession)
        requires
            old(self).valid(),
            session.wf(),
        ensures
            final(self).valid(),
            final(self).stored() == old(self).stored().insert(session.client_id@, session),
    ;

    /// The session of a client; an expired one is removed and counts as absent.
    fn get_session(&mut self, client_id: &str, now: u64) -> (r: Option<ClientSession>)
        requires
            old(self).valid(),
        ensures
            final(self).valid(),
            r == found(old(self).stored(), client_id@, now),
            final(self).stored() == looked_up(old(self).stored(), client_id@, now),
            r matches Some(s) ==> s.wf() && s.client_id@ == client_id@,
    ;

    /// Forgets the session of a client, unless the store refuses: then nothing changes.
    fn remove_session(&mut self, client_id: &str) -> (r: Result<()>)
        requires
            old(self).valid(),
        ensures
            final(self).valid(),
            match r {
                Ok(_) => old(self).refusal(client_id@) is None && final(self).stored() == old(
                    self,
                ).stored().remove(client_id@),
                Err(e) => old(self).refusal(client_id@) == Some(e) && final(self).stored() == old(
                    self,
                ).stored(),
            },
    ;
}

/// Keeps the sessions of clients.
#[derive(Debug)]
pub struct SessionManager<B: SessionStore> {
    storage: B,
}

impl<B: SessionStore> SessionManager<B> {
    /// The sessions that are kept.
    pub closed spec fn sessions(&self) -> Sessions {
        self.storage.stored()
    }

    /// The store is in order.
    pub closed spec fn wf(&self) -> bool {
        self.storage.valid()
    }

    /// The error with which the store refuses to remove a client's session, if it does.
    pub closed spec fn refusal(&self, client_id: Seq<char>) -> Option<MqttError> {
        self.storage.refusal(client_id)
    }

    /// Keeps sessions in a store.
    pub fn new(storage: B) -> (r: Self)
        requires
            storage.valid(),
        ensures
            r.wf(),
            r.sessions() == storage.stored(),
            forall|client_id: Seq<char>| #[trigger]
                r.refusal(client_id) == storage.refusal(client_id),
    {
        SessionManager { storage }
    }

    /// The session with which a client connects. A clean start discards the one that is kept; the
    /// new session then persists only if it has an expiry interval. Otherwise the session that is
    /// kept is restored, and where there is none a persistent one is made. A clean start fails
    /// where the session that is kept cannot be removed, and then changes nothing.
    pub fn get_or_create_session(
        &mut self,
        client_id: &str,
        clean_start: bool,
        session_expiry_interval: Option<u32>,
        now: u64,
    ) -> (r: Result<ClientSession>)
        requires
            old(self).wf(),
        ensures
            final(self).wf(),
            match r {
                Ok(s) => {
                    &&& clean_start ==> old(self).refusal(client_id@) is None
                    &&& s.wf()
                    &&& final(self).sessions() == old(self).sessions().insert(client_id@, s)
                    &&& opened(
                        old(self).sessions(),
                        client_id@,
                        s,
                        clean_start,
                        session_expiry_interval,
                        now,
                    )
                },
                Err(e) => {
                    &&& clean_start
                    &&& old(self).refusal(client_id@) == Some(e)
                    &&& final(self).sessions() == old(self).sessions()
                },
            },
    {
        let ghost before = self.sessions();
        if clean_start {
            if let Err(e) = self.storage.remove_session(client_id) {
                return Err(e);
            }
            let session = ClientSession::new(
                owned(client_id),
                session_expiry_interval.is_some(),
                session_expiry_interval,
                now,
            );
            self.storage.store_session(session.clone());
            assert(self.sessions() =~= before.insert(client_id@, session));
            return Ok(session);
        }
        match self.storage.get_session(client_id, now) {
            Some(mut session) => {
                session.touch(now);
                self.storage.store_session(session.clone());
                Ok(session)
            },
            None => {
                let session = ClientSession::new(
                    owned(client_id),
                    true,
                    session_expiry_interval,
                    now,
                );
                self.storage.store_session(session.clone());
                assert(self.sessions() =~= before.insert(client_id@, session));
                Ok(session)
            },
        }
    }

    /// The sessions after a change to the subscriptions of a client: where the client has a
    /// session, it has the new subscriptions and its client was seen.
    pub open spec fn changed(
        before: Sessions,
        after: Sessions,
        client_id: Seq<char>,
        subscriptions: Map<Seq<char>, StoredSubscription>,
        now: u64,
    ) -> bool {
        match found(before, client_id, now) {
            Some(session) => {
                &&& after.contains_key(client_id)
                &&& after == before.insert(client_id, after[client_id])
                &&& after[client_id].resubscribed(session, subscriptions, now)
            },
            None => after == looked_up(before, client_id, now),
        }
    }

    /// The subscriptions that the session of a client keeps.
    pub open spec fn subscriptions_of(
        sessions: Sessions,
        client_id: Seq<char>,
        now: u64,
    ) -> Map<Seq<char>, StoredSubscription> {
        match found(sessions, client_id, now) {
            Some(session) => session.subscriptions@,
            None => Map::empty(),
        }
    }

    /// Replaces the subscriptions of a client that has a session.
    pub fn update_subscriptions(
        &mut self,
        client_id: &str,
        subscriptions: TextMap<StoredSubscription>,
        now: u64,
    )
        requires
            old(self).wf(),
            subscriptions.wf(),
        ensures
            final(self).wf(),
            Self::changed(
                old(self).sessions(),
                final(self).sessions(),
                client_id@,
                subscriptions@,
                now,
            ),
    {
        if let Some(mut session) = self.storage.get_session(client_id, now) {
            session.subscriptions = Arc::new(subscriptions);
            session.touch(now);
            self.storage.store_session(session);
        }
    }

    /// Adds a subscription to the session of a client that has one.
    pub fn add_subscription(
        &mut self,
        client_id: &str,
        topic_filter: &str,
        subscription: StoredSubscription,
        now: u64,
    )
        requires
            old(self).wf(),
        ensures
            final(self).wf(),
            Self::changed(
                old(self).sessions(),
                final(self).sessions(),
                client_id@,
                Self::subscriptions_of(old(self).sessions(), client_id@, now).insert(
                    topic_filter@,
                    subscription,
                ),
                now,
            ),
    {
        if let Some(mut session) = self.storage.get_session(client_id, now) {
            session.add_subscription(owned(topic_filter), subscription);
            session.touch(now);
            self.storage.store_session(session);
        }
    }

    /// Drops a subscription from the session of a client that has one.
    pub fn remove_subscription(&mut self, client_id: &str, topic_filter: &str, now: u64)
        requires
            old(self).wf(),
        ensures
            final(self).wf(),
            Self::changed(
                old(self).sessions(),
                final(self).sessions(),
                client_id@,
                Self::subscriptions_of(old(self).sessions(), client_id@, now).remove(topic_filter@),
                now,
            ),
    {
        if let Some(mut session) = self.storage.get_session(client_id, now) {
            session.remove_subscription(topic_filter);
            session.touch(now);
            self.storage.store_session(session);
        }
    }

    /// The subscriptions that the session of a client keeps; none where there is no session.
    pub fn get_subscriptions(&mut self, client_id: &str, now: u64) -> (r: TextMap<
        StoredSubscription,
    >)
        requires
            old(self).wf(),
        ensures
            final(self).wf(),
            final(self).sessions() == looked_up(old(self).sessions(), client_id@, now),
            r.wf(),
            r@ == Self::subscriptions_of(old(self).sessions(), client_id@, now),
    {
        match self.storage.get_session(client_id, now) {
            Some(session) => session.subscriptions.copied(),
            None => TextMap::new(),
        }
    }

    /// Forgets the session of a client, unless the store refuses: then nothing changes.
    pub fn remove_session(&mut self, client_id: &str) -> (r: Result<()>)
        requires
            old(self).wf(),
        ensures
            final(self).wf(),
            match r {
                Ok(_) => old(self).refusal(client_id@) is None && final(self).sessions() == old(
                    self,
                ).sessions().remove(client_id@),
                Err(e) => old(self).refusal(client_id@) == Some(e) && final(self).sessions()
                    == old(self).sessions(),
            },
    {
        self.storage.remove_session(client_id)
    }

    /// Records that a client with a session was seen.
    pub fn touch_session(&mut self, client_id: &str, now: u64)
        requires
            old(self).wf(),
        ensures
            final(self).wf(),
            final(self).sessions() == match found(old(self).sessions(), client_id@, now) {
                Some(session) => old(self).sessions().insert(client_id@, session.touched(now)),
                None => looked_up(old(self).sessions(), client_id@, now),
            },
    {
        if let Some(mut session) = self.storage.get_session(client_id, now) {
            session.touch(now);
            self.storage.store_session(session);
        }
    }
}

/// The subscriptions that a session was given are read back until it expires, and the sessions of
/// other clients stay as they were.
pub proof fn law_subscriptions_are_read_back<B: SessionStore>(
    before: Sessions,
    after: Sessions,
    client_id: Seq<char>,
    subscriptions: Map<Seq<char>, StoredSubscription>,
    now: u64,
    later: u64,
    other: Seq<char>,
)
    requires
        SessionManager::<B>::changed(before, after, client_id, subscriptions, now),
        found(before, client_id, now) is Some,
        other != client_id,
    ensures
        after.contains_key(client_id),
        !after[client_id].expired(later) ==> SessionManager::<B>::subscriptions_of(
            after,
            client_id,
            later,
        ) == subscriptions,
        found(after, other, later) == found(before, other, later),
{
}

/// A session that is resumed has the subscriptions that were kept; after a clean start there are
/// none.
pub proof fn law_connecting_keeps_or_discards_subscriptions<B: SessionStore>(
    before: Sessions,
    client_id: Seq<char>,
    session: ClientSession,
    clean_start: bool,
    expiry_interval: Option<u32>,
    now: u64,
)
    requires
        opened(before, client_id, session, clean_start, expiry_interval, now),
    ensures
        session.subscriptions@ == (if clean_start {
            Map::<Seq<char>, StoredSubscription>::empty()
        } else {
            SessionManager::<B>::subscriptions_of(before, client_id, now)
        }),
{
}

/// A session outlives its client's last sign of life by its expiry interval: it has expired exactly
/// when more seconds than that have gone by, and one without an interval never expires. A client that
/// is seen again has its session for as long once more.
pub proof fn law_session_lives_for_its_interval(session: ClientSession, seen: u64, now: u64)
    ensures
        session.expired(now) <==> session.expiry_interval is Some && now > session.last_seen
            + session.expiry_interval->0 * 1000,
        session.touched(seen).expired(now) <==> session.expiry_interval is Some && now > seen
            + session.expiry_interval->0 * 1000,
        session.touched(seen) == (ClientSession { last_seen: seen, ..session }),
{
}

/// A lookup finds the session that is kept until it has expired, and removes it from then on; no other
/// session is touched.
pub proof fn law_lookup_finds_sessions_until_they_expire(
    sessions: Sessions,
    client_id: Seq<char>,
    other: Seq<char>,
    now: u64,
)
    requires
        other != client_id,
    ensures
        ({
            let live = sessions.contains_key(client_id) && !(
            sessions[client_id].expiry_interval is Some && now > sessions[client_id].last_seen
                + sessions[client_id].expiry_interval->0 * 1000);
            let after = looked_up(sessions, client_id, now);
            &&& found(sessions, client_id, now) == (if live {
                Some(sessions[client_id])
            } else {
                None
            })
            &&& after.contains_key(client_id) == live
            &&& after.contains_key(other) == sessions.contains_key(other)
            &&& sessions.contains_key(other) ==> after[other] == sessions[other]
        }),
{
}

/// A clean start begins a session that is kept only if it has an expiry interval; without a clean
/// start a session that is kept goes on as it was, and a new one is kept.
pub proof fn law_clean_start_begins_anew(
    before: Sessions,
    client_id: Seq<char>,
    session: ClientSession,
    clean_start: bool,
    expiry_interval: Option<u32>,
    now: u64,
)
    requires
        opened(before, client_id, session, clean_start, expiry_interval, now),
        before.contains_key(client_id) ==> before[client_id].client_id@ == client_id,
    ensures
        session.client_id@ == client_id,
        session.last_seen == now,
        clean_start ==> {
            &&& session.subscriptions@ == Map::<Seq<char>, StoredSubscription>::empty()
            &&& session.persistent == (expiry_interval is Some)
            &&& session.expiry_interval == expiry_interval
            &&& session.created_at == now
        },
        !clean_start && before.contains_key(client_id) && before[client_id].expiry_interval is None
            ==> session == (ClientSession { last_seen: now, ..before[client_id] }),
        !clean_start && !before.contains_key(client_id) ==> session.persistent
            && session.expiry_interval == expiry_interval && session.subscriptions@ == Map::<
            Seq<char>,
            StoredSubscription,
        >::empty(),
{
}

/// A session whose subscriptions change stays the session of its client, with its expiry interval;
/// the client was seen.
pub proof fn law_changed_session_stays_the_same(
    before: ClientSession,
    after: ClientSession,
    subscriptions: Map<Seq<char>, StoredSubscription>,
    now: u64,
)
    requires
        after.resubscribed(before, subscriptions, now),
    ensures
        after.client_id == before.client_id,
        after.expiry_interval == before.expiry_interval,
        after.persistent == before.persistent,
        after.created_at == before.created_at,
        after.subscriptions@ == subscriptions,
        after.last_seen == now,
{
}

} // verus!
