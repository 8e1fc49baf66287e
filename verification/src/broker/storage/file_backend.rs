//! What a storage directory needs decided: the cache of sessions that wait to be written, the
//! version of the storage format, and the steps of an atomic write.

use super::file_names::filename_to_topic;
use super::sessions::{ClientSession, Sessions};
use crate::error::{MqttError, Result};
use crate::text::{chars_of, decimal_text, joined, owned, same_text, string_of};
use crate::text_map::TextMap;
use crate::topic::topic_matches_filter;
use vstd::prelude::*;

verus! {

/// The version of the storage format. It changes with the fields of what is stored, with the
/// names of files, and with the layout of directories.
pub const STORAGE_VERSION: &'static str = "1";

/// The characters with the property `White_Space`.
pub open spec fn white(c: char) -> bool {
    ||| 0x9 <= c as u32 <= 0xD
    ||| c as u32 == 0x20
    ||| c as u32 == 0x85
    ||| c as u32 == 0xA0
    ||| c as u32 == 0x1680
    ||| 0x2000 <= c as u32 <= 0x200A
    ||| c as u32 == 0x2028
    ||| c as u32 == 0x2029
    ||| c as u32 == 0x202F
    ||| c as u32 == 0x205F
    ||| c as u32 == 0x3000
}

fn is_white(c: char) -> (r: bool)
    ensures
        r == white(c),
{
    let n: u32 = c as u32;
    (0x9 <= n && n <= 0xD) || n == 0x20 || n == 0x85 || n == 0xA0 || n == 0x1680 || (0x2000 <= n
        && n <= 0x200A) || n == 0x2028 || n == 0x2029 || n == 0x202F || n == 0x205F || n == 0x3000
}

/// A text without the white space at its start.
pub open spec fn trimmed_start(s: Seq<char>) -> Seq<char>
    decreases s.len(),
{
    if s.len() > 0 && white(s[0]) {
        trimmed_start(s.drop_first())
    } else {
        s
    }
}

/// A text without the white space at its end.
pub open spec fn trimmed_end(s: Seq<char>) -> Seq<char>
    decreases s.len(),
{
    if s.len() > 0 && white(s.last()) {
        trimmed_end(s.drop_last())
    } else {
        s
    }
}

/// A text without the white space at its two ends.
pub open spec fn trimmed(s: Seq<char>) -> Seq<char> {
    trimmed_end(trimmed_start(s))
}

/// A text without the white space at its two ends.
pub fn trim(s: &str) -> (r: String)
    ensures
        r@ == trimmed(s@),
{
    let chars = chars_of(s);
    let mut lo: usize = 0;
    assert(chars@.skip(0) =~= chars@);
    while lo < chars.len() && is_white(chars[lo])
        invariant
            lo <= chars@.len(),
            trimmed_start(chars@.skip(lo as int)) == trimmed_start(chars@),
        decreases chars@.len() - lo,
    {
        assert(chars@.skip(lo as int).drop_first() =~= chars@.skip(lo + 1));
        lo = lo + 1;
    }
    let ghost rest = chars@.skip(lo as int);
    assert(trimmed_start(chars@) == rest);
    let mut hi: usize = chars.len();
    assert(chars@.subrange(lo as int, hi as int) =~= rest);
    while hi > lo && is_white(chars[hi - 1])
        invariant
            lo <= hi <= chars@.len(),
            trimmed_end(chars@.subrange(lo as int, hi as int)) == trimmed_end(rest),
        decreases hi,
    {
        assert(chars@.subrange(lo as int, hi as int).drop_last() =~= chars@.subrange(
            lo as int,
            hi - 1,
        ));
        hi = hi - 1;
    }
    let mut out: Vec<char> = Vec::new();
    let mut i: usize = lo;
    while i < hi
        invariant
            lo <= i <= hi <= chars@.len(),
            out@ =~= chars@.subrange(lo as int, i as int),
        decreases hi - i,
    {
        out.push(chars[i]);
        i = i + 1;
    }
    string_of(&out)
}

/// What is said about a directory whose storage has another version.
pub open spec fn mismatch_text(found: Seq<char>, dir: Seq<char>) -> Seq<char> {
    "Storage version mismatch: found version "@ + found + ", expected version "@ + STORAGE_VERSION@
        + ".\n\nThe storage format has changed and is incompatible.\n\nTo resolve this issue:\n1. Backup your data: mqttv5 storage backup --dir "@
        + dir + " --output backup.json\n2. Remove the storage directory: rm -rf "@ + dir
        + "\n3. Restart the broker (it will create a new storage with version "@ + STORAGE_VERSION@
        + ")\n\nNote: Without backup, all retained messages and session data will be lost."@
}

/// Checks the content of a directory's version file.
pub fn check_storage_version(stored: &str, dir: &str) -> (r: Result<()>)
    ensures
        match r {
            Ok(()) => trimmed(stored@) == STORAGE_VERSION@,
            Err(e) => trimmed(stored@) != STORAGE_VERSION@ && (e matches MqttError::Configuration(
                text,
            ) && text@ == mismatch_text(trimmed(stored@), dir@)),
        },
{
    let found = trim(stored);
    if same_text(found.as_str(), STORAGE_VERSION) {
        return Ok(());
    }
    let mut text = owned("Storage version mismatch: found version ");
    text.append(found.as_str());
    text.append(", expected version ");
    text.append(STORAGE_VERSION);
    text.append(
        ".\n\nThe storage format has changed and is incompatible.\n\nTo resolve this issue:\n1. Backup your data: mqttv5 storage backup --dir ",
    );
    text.append(dir);
    text.append(" --output backup.json\n2. Remove the storage directory: rm -rf ");
    text.append(dir);
    text.append("\n3. Restart the broker (it will create a new storage with version ");
    text.append(STORAGE_VERSION);
    text.append(
        ")\n\nNote: Without backup, all retained messages and session data will be lost.",
    );
    Err(MqttError::Configuration(text))
}

/// How moving a written file into its place went.
#[derive(Debug, Clone, Copy, PartialEq, Eq, Structural)]
pub enum RenameOutcome {
    Done,
    Missing,
    Failed,
}

/// What an atomic write does after trying to move the file into its place.
#[derive(Debug, Clone, Copy, PartialEq, Eq, Structural)]
pub enum WriteStep {
    /// The file is in its place.
    Finish,
    /// The written file is removed, and everything is tried once more.
    Retry,
    /// The written file is removed, and the write has failed.
    Fail,
}

/// Whether an atomic write is over. A directory that vanished under the first attempt is made
/// again; nothing else is retried.
pub fn after_rename(attempt: u8, outcome: RenameOutcome) -> (r: WriteStep)
    ensures
        r is Finish <==> outcome is Done,
        r is Retry <==> outcome is Missing && attempt == 0,
{
    match outcome {
        RenameOutcome::Done => WriteStep::Finish,
        RenameOutcome::Missing => if attempt == 0 {
            WriteStep::Retry
        } else {
            WriteStep::Fail
        },
        RenameOutcome::Failed => WriteStep::Fail,
    }
}

/// The topic of a file of retained messages, if the topic matches a filter.
pub fn retained_topic(stem: &str, topic_filter: &str) -> (r: Option<String>)
    ensures
        match r {
            Some(topic) => topic@ == super::file_names::decoded(stem@)
                && crate::topic::topic_matches(topic@, topic_filter@),
            None => !crate::topic::topic_matches(
                super::file_names::decoded(stem@),
                topic_filter@,
            ),
        },
{
    let topic = filename_to_topic(stem);
    if topic_matches_filter(topic.as_str(), topic_filter) {
        Some(topic)
    } else {
        None
    }
}

/// What a lookup in the cache says.
#[derive(Debug)]
pub enum Cached {
    /// The session is in the cache.
    Hit(ClientSession),
    /// The session has expired: its file is to be removed.
    Expired,
    /// The session may be in a file.
    Unknown,
}

/// Sessions in memory, and which of them the files do not hold yet.
#[derive(Debug)]
pub struct SessionCache {
    sessions: TextMap<ClientSession>,
    dirty: TextMap<()>,
}

/// The clients whose sessions could not be written.
pub open spec fn failures(outcomes: Seq<(String, bool)>) -> Seq<(String, bool)> {
    outcomes.filter(|o: (String, bool)| !o.1)
}

/// The clients whose sessions wait after some were written.
pub open spec fn still_dirty(dirty: Set<Seq<char>>, outcomes: Seq<(String, bool)>) -> Set<
    Seq<char>,
>
    decreases outcomes.len(),
{
    if outcomes.len() == 0 {
        dirty
    } else {
        let rest = still_dirty(dirty, outcomes.drop_last());
        if outcomes.last().1 {
            rest.remove(outcomes.last().0@)
        } else {
            rest
        }
    }
}

impl SessionCache {
    /// The sessions in the cache.
    pub closed spec fn cached(&self) -> Sessions {
        self.sessions@
    }

    /// The clients whose sessions wait to be written.
    pub closed spec fn waiting(&self) -> Set<Seq<char>> {
        self.dirty@.dom()
    }

    /// No client stands twice.
    pub closed spec fn wf(&self) -> bool {
        self.sessions.wf() && self.dirty.wf()
    }

    /// A cache without sessions.
    pub fn new() -> (r: Self)
        ensures
            r.wf(),
            r.cached() == Map::<Seq<char>, ClientSession>::empty(),
            r.waiting() == Set::<Seq<char>>::empty(),
    {
        let r = SessionCache { sessions: TextMap::new(), dirty: TextMap::new() };
        assert(r.waiting() =~= Set::<Seq<char>>::empty());
        r
    }

    /// Keeps a session; it waits to be written.
    pub fn store(&mut self, session: ClientSession)
        requires
            old(self).wf(),
        ensures
            final(self).wf(),
            final(self).cached() == old(self).cached().insert(session.client_id@, session),
            final(self).waiting() == old(self).waiting().insert(session.client_id@),
    {
        let ghost before = self.waiting();
        let client_id = session.client_id.clone();
        let _ = self.sessions.insert(session.client_id.clone(), session);
        let _ = self.dirty.insert(client_id, ());
        assert(self.waiting() =~= before.insert(client_id@));
    }

    /// Forgets a session; its file is to be removed.
    pub fn remove(&mut self, client_id: &str)
        requires
            old(self).wf(),
        ensures
            final(self).wf(),
            final(self).cached() == old(self).cached().remove(client_id@),
            final(self).waiting() == old(self).waiting().remove(client_id@),
    {
        let ghost before = self.waiting();
        let _ = self.sessions.remove(client_id);
        let _ = self.dirty.remove(client_id);
        assert(self.waiting() =~= before.remove(client_id@));
    }

    /// Looks a session up in the cache.
    pub fn lookup(&mut self, client_id: &str, now: u64) -> (r: Cached)
        requires
            old(self).wf(),
        ensures
            final(self).wf(),
            match r {
                Cached::Hit(session) => {
                    &&& super::sessions::found(old(self).cached(), client_id@, now) == Some(session)
                    &&& *final(self) == *old(self)
                },
                Cached::Expired => {
                    &&& old(self).cached().contains_key(client_id@)
                    &&& old(self).cached()[client_id@].expired(now)
                    &&& final(self).cached() == old(self).cached().remove(client_id@)
                    &&& final(self).waiting() == old(self).waiting().remove(client_id@)
                },
                Cached::Unknown => {
                    &&& !old(self).cached().contains_key(client_id@)
                    &&& *final(self) == *old(self)
                },
            },
    {
        let session = match self.sessions.get(client_id) {
            Some(session) => session.clone(),
            None => {
                return Cached::Unknown;
            },
        };
        if session.is_expired(now) {
            self.remove(client_id);
            return Cached::Expired;
        }
        Cached::Hit(session)
    }

    /// Takes a session over from its file. An expired one is not: its file is to be removed, which
    /// `false` says.
    pub fn loaded(&mut self, client_id: &str, session: &ClientSession, now: u64) -> (r: bool)
        requires
            old(self).wf(),
        ensures
            final(self).wf(),
            r == !session.expired(now),
            r ==> final(self).cached() == old(self).cached().insert(client_id@, *session)
                && final(self).waiting() == old(self).waiting(),
            !r ==> final(self).cached() == old(self).cached().remove(client_id@)
                && final(self).waiting() == old(self).waiting().remove(client_id@),
    {
        if session.is_expired(now) {
            self.remove(client_id);
            return false;
        }
        let _ = self.sessions.insert(owned(client_id), session.clone());
        true
    }

    /// The clients whose sessions wait to be written, in order.
    pub fn to_flush(&self) -> (r: Vec<String>)
        requires
            self.wf(),
        ensures
            forall|k: Seq<char>| #[trigger]
                self.waiting().contains(k) <==> exists|i: int|
                    0 <= i < r@.len() && (#[trigger] r@[i])@ == k,
            forall|i: int, j: int|
                #![trigger r@[i], r@[j]]
                0 <= i < j < r@.len() ==> r@[i]@ != r@[j]@,
    {
        let ghost list = self.dirty.listing();
        proof {
            crate::text_map::lemma_as_map(list);
        }
        let n: usize = self.dirty.len();
        let mut out: Vec<String> = Vec::new();
        let mut i: usize = 0;
        while i < n
            invariant
                i <= n,
                n == list.len(),
                list == self.dirty.listing(),
                out@.len() == i,
                forall|j: int| 0 <= j < i ==> (#[trigger] out@[j])@ == list[j].0,
            decreases n - i,
        {
            out.push(self.dirty.key_at(i).clone());
            i = i + 1;
        }
        proof {
            assert forall|k: Seq<char>| #[trigger] self.waiting().contains(k) <==> exists|i: int|
                0 <= i < out@.len() && (#[trigger] out@[i])@ == k by {
                if self.waiting().contains(k) {
                    assert(self.dirty@.contains_key(k));
                    let j = choose|j: int| 0 <= j < list.len() && (#[trigger] list[j]).0 == k;
                    assert(out@[j]@ == k);
                }
                if exists|i: int| 0 <= i < out@.len() && (#[trigger] out@[i])@ == k {
                    let j = choose|j: int| 0 <= j < out@.len() && (#[trigger] out@[j])@ == k;
                    assert(list[j].0 == k);
                    assert(self.dirty@.contains_key(list[j].0));
                }
            }
            assert forall|a: int, b: int|
                #![trigger out@[a], out@[b]]
                0 <= a < b < out@.len() implies out@[a]@ != out@[b]@ by {
                assert(list[a].0 != list[b].0);
            }
        }
        out
    }

    /// The session in the cache, to be written.
    pub fn session(&self, client_id: &str) -> (r: Option<&ClientSession>)
        requires
            self.wf(),
        ensures
            match r {
                Some(s) => self.cached().contains_key(client_id@) && *s == self.cached()[client_id@],
                None => !self.cached().contains_key(client_id@),
            },
    {
        self.sessions.get(client_id)
    }

    /// Takes over how writing the sessions went: `true` for one that was written, or that was no
    /// longer there. One that could not be written keeps waiting, and is reported.
    pub fn finish_flush(&mut self, outcomes: Vec<(String, bool)>) -> (r: Result<()>)
        requires
            old(self).wf(),
        ensures
            final(self).wf(),
            final(self).cached() == old(self).cached(),
            final(self).waiting() == still_dirty(old(self).waiting(), outcomes@),
            match r {
                Ok(()) => failures(outcomes@).len() == 0,
                Err(e) => failures(outcomes@).len() > 0 && (e matches MqttError::Io(text) && text@
                    == "failed to persist "@ + crate::text::decimal(failures(outcomes@).len())
                    + " sessions"@),
            },
    {
        let ghost origin = *self;
        let ghost all = outcomes@;
        let mut failed: u64 = 0;
        let mut i: usize = 0;
        assert(all.take(0) =~= Seq::<(String, bool)>::empty());
        proof {
            reveal_with_fuel(Seq::filter, 1);
            assert(failures(all.take(0)).len() == 0);
        }
        while i < outcomes.len()
            invariant
                i <= all.len(),
                all == outcomes@,
                self.wf(),
                self.cached() == origin.cached(),
                self.waiting() == still_dirty(origin.waiting(), all.take(i as int)),
                failed == failures(all.take(i as int)).len(),
                failed <= i,
            decreases all.len() - i,
        {
            assert(all.take(i + 1).drop_last() =~= all.take(i as int));
            assert(all.take(i + 1).last() == all[i as int]);
            proof {
                reveal(Seq::filter);
            }
            if outcomes[i].1 {
                let ghost before = self.waiting();
                let _ = self.dirty.remove(outcomes[i].0.as_str());
                assert(self.waiting() =~= before.remove(all[i as int].0@));
            } else {
                failed = failed + 1;
            }
            i = i + 1;
        }
        assert(all.take(all.len() as int) =~= all);
        if failed == 0 {
            Ok(())
        } else {
            let count = decimal_text(failed);
            Err(MqttError::Io(joined("failed to persist ", count.as_str(), " sessions")))
        }
    }
}

/// A session that was kept is found again until it expires, whether it was written or not.
pub proof fn law_stored_session_is_found(sessions: Sessions, session: ClientSession, now: u64)
    requires
        !session.expired(now),
    ensures
        super::sessions::found(
            sessions.insert(session.client_id@, session),
            session.client_id@,
            now,
        ) == Some(session),
{
}

/// A session keeps waiting exactly if no write of it succeeded.
pub proof fn law_only_written_sessions_stop_waiting(
    dirty: Set<Seq<char>>,
    outcomes: Seq<(String, bool)>,
    client_id: Seq<char>,
)
    ensures
        still_dirty(dirty, outcomes).contains(client_id) <==> dirty.contains(client_id) && !exists|
            i: int,
        |
            0 <= i < outcomes.len() && (#[trigger] outcomes[i]).0@ == client_id && outcomes[i].1,
    decreases outcomes.len(),
{
    if outcomes.len() > 0 {
        let rest = outcomes.drop_last();
        law_only_written_sessions_stop_waiting(dirty, rest, client_id);
        if exists|i: int|
            0 <= i < outcomes.len() && (#[trigger] outcomes[i]).0@ == client_id && outcomes[i].1 {
            let i = choose|i: int|
                0 <= i < outcomes.len() && (#[trigger] outcomes[i]).0@ == client_id
                    && outcomes[i].1;
            if i < rest.len() {
                assert(rest[i].0@ == client_id && rest[i].1);
            }
        }
        if exists|i: int| 0 <= i < rest.len() && (#[trigger] rest[i]).0@ == client_id && rest[i].1 {
            let i = choose|i: int|
                0 <= i < rest.len() && (#[trigger] rest[i]).0@ == client_id && rest[i].1;
            assert(outcomes[i].0@ == client_id && outcomes[i].1);
        }
    }
}

/// Trimming takes white space from both ends and leaves the rest: what is left stands in the text
/// between two runs of white space, and neither begins nor ends with a blank or a line break.
pub proof fn law_trimming_leaves_the_text(before: Seq<char>, text: Seq<char>, after: Seq<char>)
    requires
        forall|i: int|
            0 <= i < before.len() ==> (#[trigger] before[i] == ' ' || before[i] == '\n' || before[i]
                == '\r' || before[i] == '\t'),
        forall|i: int|
            0 <= i < after.len() ==> (#[trigger] after[i] == ' ' || after[i] == '\n' || after[i]
                == '\r' || after[i] == '\t'),
        text.len() > 0,
        '0' <= text[0] <= 'z',
        '0' <= text.last() <= 'z',
    ensures
        trimmed(before + text + after) == text,
{
    lemma_trimmed_start(before, text + after);
    assert(before + text + after =~= before + (text + after));
    lemma_trimmed_end(text, after);
}

proof fn lemma_trimmed_start(before: Seq<char>, text: Seq<char>)
    requires
        forall|i: int|
            0 <= i < before.len() ==> (#[trigger] before[i] == ' ' || before[i] == '\n' || before[i]
                == '\r' || before[i] == '\t'),
        text.len() > 0,
        '0' <= text[0] <= 'z',
    ensures
        trimmed_start(before + text) == text,
    decreases before.len(),
{
    let all = before + text;
    if before.len() > 0 {
        let rest = before.drop_first();
        assert forall|i: int| 0 <= i < rest.len() implies (#[trigger] rest[i] == ' ' || rest[i]
            == '\n' || rest[i] == '\r' || rest[i] == '\t') by {
            assert(rest[i] == before[i + 1]);
        }
        assert(all[0] == before[0]);
        assert(all.drop_first() =~= rest + text);
        lemma_trimmed_start(rest, text);
    } else {
        assert(all =~= text);
    }
}

proof fn lemma_trimmed_end(text: Seq<char>, after: Seq<char>)
    requires
        forall|i: int|
            0 <= i < after.len() ==> (#[trigger] after[i] == ' ' || after[i] == '\n' || after[i]
                == '\r' || after[i] == '\t'),
        text.len() > 0,
        '0' <= text.last() <= 'z',
    ensures
        trimmed_end(text + after) == text,
    decreases after.len(),
{
    let all = text + after;
    if after.len() > 0 {
        let rest = after.drop_last();
        assert forall|i: int| 0 <= i < rest.len() implies (#[trigger] rest[i] == ' ' || rest[i]
            == '\n' || rest[i] == '\r' || rest[i] == '\t') by {
            assert(rest[i] == after[i]);
        }
        assert(all.last() == after[after.len() - 1]);
        assert(all.drop_last() =~= text + rest);
        lemma_trimmed_end(text, rest);
    } else {
        assert(all =~= text);
    }
}

} // verus!
