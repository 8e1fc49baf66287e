//! A set of packet identifiers.

use vstd::prelude::*;

verus! {

/// The words of a set of packet identifiers.
pub const PACKET_ID_WORDS: usize = 1024;

/// A set of packet identifiers, one bit for each.
#[derive(Debug)]
pub struct PacketIdSet {
    words: Vec<u64>,
}

/// Whether a bit of a word is set.
spec fn bit_set(word: u64, i: u64) -> bool {
    (word >> i) & 1 == 1
}

proof fn lemma_or(word: u64, i: u64, j: u64)
    requires
        i < 64,
        j < 64,
    ensures
        bit_set(word | (1u64 << i), j) == (bit_set(word, j) || i == j),
{
    assert(i < 64 && j < 64 ==> (((word | (1u64 << i)) >> j) & 1 == 1) == (((word >> j) & 1 == 1)
        || i == j)) by (bit_vector);
}

proof fn lemma_and_not(word: u64, i: u64, j: u64)
    requires
        i < 64,
        j < 64,
    ensures
        bit_set(word & !(1u64 << i), j) == (bit_set(word, j) && i != j),
{
    assert(i < 64 && j < 64 ==> (((word & !(1u64 << i)) >> j) & 1 == 1) == (((word >> j) & 1 == 1)
        && i != j)) by (bit_vector);
}

proof fn lemma_test(word: u64, i: u64)
    requires
        i < 64,
    ensures
        (word & (1u64 << i) != 0) == bit_set(word, i),
{
    assert(i < 64 ==> ((word & (1u64 << i)) != 0) == ((word >> i) & 1 == 1)) by (bit_vector);
}

proof fn lemma_zero(i: u64)
    requires
        i < 64,
    ensures
        !bit_set(0, i),
{
    assert(i < 64 ==> (0u64 >> i) & 1 != 1) by (bit_vector);
}

impl View for PacketIdSet {
    type V = Set<u16>;

    closed spec fn view(&self) -> Set<u16> {
        Set::new(|id: u16| bit_set(self.words@[(id / 64) as int], (id % 64) as u64))
    }
}

impl PacketIdSet {
    /// There is a bit for each identifier.
    pub closed spec fn wf(&self) -> bool {
        self.words@.len() == PACKET_ID_WORDS
    }

    /// The empty set.
    pub fn new() -> (r: Self)
        ensures
            r.wf(),
            r@ == Set::<u16>::empty(),
    {
        let mut words: Vec<u64> = Vec::new();
        let mut i: usize = 0;
        while i < PACKET_ID_WORDS
            invariant
                i <= PACKET_ID_WORDS,
                words@.len() == i,
                forall|j: int| 0 <= j < i ==> words@[j] == 0,
            decreases PACKET_ID_WORDS - i,
        {
            words.push(0);
            i = i + 1;
        }
        let r = PacketIdSet { words };
        proof {
            assert forall|id: u16| !#[trigger] r@.contains(id) by {
                lemma_zero((id % 64) as u64);
            }
            assert(r@ =~= Set::<u16>::empty());
        }
        r
    }

    /// Adds an identifier.
    pub fn insert(&mut self, packet_id: u16)
        requires
            old(self).wf(),
        ensures
            final(self).wf(),
            final(self)@ == old(self)@.insert(packet_id),
    {
        let ghost before = self@;
        let word: usize = (packet_id / 64) as usize;
        let place: u64 = (packet_id % 64) as u64;
        let bits: u64 = self.words[word];
        self.words.set(word, bits | (1u64 << place));
        proof {
            assert forall|id: u16| #[trigger] self@.contains(id) == before.insert(
                packet_id,
            ).contains(id) by {
                if id / 64 == packet_id / 64 {
                    lemma_or(bits, place, (id % 64) as u64);
                }
            }
            assert(self@ =~= before.insert(packet_id));
        }
    }

    /// Removes an identifier.
    pub fn remove(&mut self, packet_id: u16)
        requires
            old(self).wf(),
        ensures
            final(self).wf(),
            final(self)@ == old(self)@.remove(packet_id),
    {
        let ghost before = self@;
        let word: usize = (packet_id / 64) as usize;
        let place: u64 = (packet_id % 64) as u64;
        let bits: u64 = self.words[word];
        self.words.set(word, bits & !(1u64 << place));
        proof {
            assert forall|id: u16| #[trigger] self@.contains(id) == before.remove(
                packet_id,
            ).contains(id) by {
                if id / 64 == packet_id / 64 {
                    lemma_and_not(bits, place, (id % 64) as u64);
                }
            }
            assert(self@ =~= before.remove(packet_id));
        }
    }

    /// Whether an identifier is in the set.
    pub fn contains(&self, packet_id: u16) -> (r: bool)
        requires
            self.wf(),
        ensures
            r == self@.contains(packet_id),
    {
        let word: usize = (packet_id / 64) as usize;
        let place: u64 = (packet_id % 64) as u64;
        proof {
            lemma_test(self.words@[word as int], place);
        }
        self.words[word] & (1u64 << place) != 0
    }

    /// Removes every identifier.
    pub fn clear(&mut self)
        ensures
            final(self).wf(),
            final(self)@ == Set::<u16>::empty(),
    {
        *self = PacketIdSet::new();
    }
}

impl Default for PacketIdSet {
    fn default() -> (r: Self)
        ensures
            r.wf(),
            r@ == Set::<u16>::empty(),
    {
        PacketIdSet::new()
    }
}

} // verus!
