//! Short-lived memory of what was read off the ledger.
//!
//! The cache belongs to one chain endpoint. It is filled when a protocol
//! object is first looked up and emptied as a whole after every round of
//! submissions, since a submission may have consumed the cells that the
//! remembered inputs refer to.

use crate::bytes::same_hash;
use crate::cell::CellInput;
use crate::ibc::{Channel, ConnectionSet};
use vstd::prelude::*;

verus! {

/// Keys that can be compared.
pub trait SameValue: Sized {
    /// Whether two keys are the same.
    fn same(&self, other: &Self) -> (r: bool)
        ensures
            r == (*self == *other),
    ;
}

/// The key of a remembered channel end.
#[derive(Clone, Copy, Debug, PartialEq, Eq)]
pub struct ChannelKey {
    pub channel_id: u16,
    pub port_id: [u8; 32],
}

/// The key of the remembered input of a packet cell.
#[derive(Clone, Copy, Debug, PartialEq, Eq)]
pub struct PacketKey {
    pub channel_id: u16,
    pub port_id: [u8; 32],
    pub sequence: u64,
}

impl SameValue for ChannelKey {
    fn same(&self, other: &Self) -> (r: bool) {
        self.channel_id == other.channel_id && same_hash(&self.port_id, &other.port_id)
    }
}

impl SameValue for PacketKey {
    fn same(&self, other: &Self) -> (r: bool) {
        self.channel_id == other.channel_id && same_hash(&self.port_id, &other.port_id)
            && self.sequence == other.sequence
    }
}

/// Whether some entry has the key `key`.
pub open spec fn has_key<K, V>(entries: Seq<(K, V)>, key: K) -> bool {
    exists|i: int| 0 <= i < entries.len() && (#[trigger] entries[i]).0 == key
}

/// The position of an entry with the key `key`.
pub open spec fn position_of<K, V>(entries: Seq<(K, V)>, key: K) -> int {
    choose|i: int| 0 <= i < entries.len() && (#[trigger] entries[i]).0 == key
}

/// No two entries have the same key.
pub open spec fn keys_distinct<K, V>(entries: Seq<(K, V)>) -> bool {
    forall|i: int, j: int|
        0 <= i < j < entries.len() ==> (#[trigger] entries[i]).0 != (#[trigger] entries[j]).0
}

/// The mapping that a list of entries with distinct keys stands for.
pub open spec fn entries_map<K, V>(entries: Seq<(K, V)>) -> Map<K, V> {
    Map::new(|k: K| has_key(entries, k), |k: K| entries[position_of(entries, k)].1)
}

/// Where keys are distinct, the entry found under a key is the entry of that
/// key.
pub proof fn lemma_position_of<K, V>(entries: Seq<(K, V)>, i: int)
    requires
        keys_distinct(entries),
        0 <= i < entries.len(),
    ensures
        has_key(entries, entries[i].0),
        position_of(entries, entries[i].0) == i,
{
    let key = entries[i].0;
    assert(has_key(entries, key));
    let c = position_of(entries, key);
    assert(0 <= c < entries.len() && entries[c].0 == key);
    if c < i {
        assert(entries[c].0 != entries[i].0);
    } else if i < c {
        assert(entries[i].0 != entries[c].0);
    }
}

/// A mapping from keys to values, kept as a list of entries.
pub struct Table<K, V> {
    entries: Vec<(K, V)>,
}

impl<K, V> Table<K, V> {
    #[verifier::type_invariant]
    spec fn distinct(self) -> bool {
        keys_distinct(self.entries@)
    }
}

impl<K: SameValue, V> Table<K, V> {
    /// The mapping that the table holds.
    pub closed spec fn view(&self) -> Map<K, V> {
        entries_map(self.entries@)
    }

    /// The number of entries.
    pub closed spec fn spec_len(&self) -> nat {
        self.entries@.len()
    }

    /// An empty table.
    pub fn new() -> (t: Table<K, V>)
        ensures
            t@ == Map::<K, V>::empty(),
            t.spec_len() == 0,
    {
        let t = Table { entries: Vec::new() };
        assert(t@ =~= Map::<K, V>::empty());
        t
    }

    /// The number of entries.
    pub fn len(&self) -> (n: usize)
        ensures
            n == self.spec_len(),
    {
        self.entries.len()
    }

    /// Finds the entry of `key`.
    fn find(&self, key: &K) -> (r: Option<usize>)
        ensures
            match r {
                Some(i) => i < self.entries@.len() && self.entries@[i as int].0 == *key,
                None => !has_key(self.entries@, *key),
            },
    {
        let mut i: usize = 0;
        while i < self.entries.len()
            invariant
                i <= self.entries.len(),
                forall|j: int| 0 <= j < i ==> (#[trigger] self.entries@[j]).0 != *key,
            decreases self.entries.len() - i,
        {
            if self.entries[i].0.same(key) {
                return Some(i);
            }
            i = i + 1;
        }
        None
    }

    /// The value remembered under `key`, if there is one.
    pub fn get(&self, key: &K) -> (r: Option<&V>)
        ensures
            match r {
                Some(v) => self@.contains_key(*key) && self@[*key] == *v,
                None => !self@.contains_key(*key),
            },
    {
        proof {
            use_type_invariant(self);
        }
        match self.find(key) {
            Some(i) => {
                proof {
                    lemma_position_of(self.entries@, i as int);
                }
                Some(&self.entries[i].1)
            },
            None => None,
        }
    }

    /// Remembers `value` under `key`, in place of what was remembered there.
    pub fn put(&mut self, key: K, value: V)
        ensures
            final(self)@ == old(self)@.insert(key, value),
            final(self).spec_len() == if old(self)@.contains_key(key) {
                old(self).spec_len()
            } else {
                old(self).spec_len() + 1
            },
    {
        proof {
            use_type_invariant(&*self);
        }
        let ghost before = self.entries@;
        let found = self.find(&key);
        let mut entries: Vec<(K, V)> = Vec::new();
        core::mem::swap(&mut entries, &mut self.entries);
        match found {
            Some(i) => {
                entries.set(i, (key, value));
                let ghost after = entries@;
                proof {
                    assert forall|a: int, b: int| 0 <= a < b < after.len() implies (
                    #[trigger] after[a]).0 != (#[trigger] after[b]).0 by {
                        assert(before[a].0 != before[b].0);
                    }
                    assert forall|k: K| #[trigger] has_key(after, k) == has_key(before, k) by {
                        if has_key(after, k) {
                            let j = position_of(after, k);
                            assert(before[j].0 == k);
                        }
                        if has_key(before, k) {
                            let j = position_of(before, k);
                            assert(after[j].0 == k);
                        }
                    }
                    lemma_position_of(before, i as int);
                    assert forall|k: K| has_key(after, k) implies #[trigger] entries_map(after)[k]
                        == entries_map(before).insert(key, value)[k] by {
                        let j = position_of(after, k);
                        lemma_position_of(after, j);
                        lemma_position_of(before, j);
                    }
                    assert(entries_map(after) =~= entries_map(before).insert(key, value));
                }
            },
            None => {
                entries.push((key, value));
                let ghost after = entries@;
                proof {
                    let n = before.len() as int;
                    assert forall|a: int, b: int| 0 <= a < b < after.len() implies (
                    #[trigger] after[a]).0 != (#[trigger] after[b]).0 by {
                        if b < n {
                            assert(before[a].0 != before[b].0);
                        } else {
                            assert(before[a].0 != key);
                        }
                    }
                    assert forall|k: K| #[trigger] has_key(after, k) == (k == key || has_key(
                        before,
                        k,
                    )) by {
                        if has_key(after, k) {
                            let j = position_of(after, k);
                            if j < n {
                                assert(before[j].0 == k);
                            }
                        }
                        if has_key(before, k) {
                            let j = position_of(before, k);
                            assert(after[j].0 == k);
                        }
                        if k == key {
                            assert(after[n].0 == k);
                        }
                    }
                    assert forall|k: K| has_key(after, k) implies #[trigger] entries_map(after)[k]
                        == entries_map(before).insert(key, value)[k] by {
                        let j = position_of(after, k);
                        lemma_position_of(after, j);
                        if j < n {
                            assert(before[j] == after[j]);
                            lemma_position_of(before, j);
                        }
                    }
                    assert(entries_map(after) =~= entries_map(before).insert(key, value));
                }
            },
        }
        self.entries = entries;
    }

    /// Forgets everything.
    pub fn clear(&mut self)
        ensures
            final(self)@ == Map::<K, V>::empty(),
            final(self).spec_len() == 0,
    {
        self.entries = Vec::new();
        assert(self@ =~= Map::<K, V>::empty());
    }
}

/// What one chain endpoint remembers of the ledger: the connections of its
/// client, the channel ends it has looked up, and the inputs of the packet
/// cells it has found, each with the input that consumes the remembered cell.
pub struct StateCache {
    pub connection: Option<(ConnectionSet, CellInput)>,
    pub channels: Table<ChannelKey, (Channel, CellInput)>,
    pub packets: Table<PacketKey, CellInput>,
}

impl StateCache {
    /// A cache that remembers nothing.
    pub fn new() -> (c: StateCache)
        ensures
            c.connection is None,
            c.channels@ == Map::<ChannelKey, (Channel, CellInput)>::empty(),
            c.packets@ == Map::<PacketKey, CellInput>::empty(),
    {
        StateCache { connection: None, channels: Table::new(), packets: Table::new() }
    }

    /// Remembers the connections of the client, in place of those remembered
    /// before.
    pub fn put_connection(&mut self, connections: ConnectionSet, input: CellInput)
        ensures
            final(self).connection == Some((connections, input)),
            final(self).channels@ == old(self).channels@,
            final(self).packets@ == old(self).packets@,
    {
        self.connection = Some((connections, input));
    }

    /// Remembers a channel end.
    pub fn put_channel(&mut self, key: ChannelKey, channel: Channel, input: CellInput)
        ensures
            final(self).channels@ == old(self).channels@.insert(key, (channel, input)),
            final(self).connection == old(self).connection,
            final(self).packets@ == old(self).packets@,
    {
        self.channels.put(key, (channel, input));
    }

    /// Remembers the input of a packet cell.
    pub fn put_packet(&mut self, key: PacketKey, input: CellInput)
        ensures
            final(self).packets@ == old(self).packets@.insert(key, input),
            final(self).connection == old(self).connection,
            final(self).channels@ == old(self).channels@,
    {
        self.packets.put(key, input);
    }

    /// The channel end remembered under `key`, if there is one.
    pub fn get_channel(&self, key: &ChannelKey) -> (r: Option<&(Channel, CellInput)>)
        ensures
            match r {
                Some(v) => self.channels@.contains_key(*key) && self.channels@[*key] == *v,
                None => !self.channels@.contains_key(*key),
            },
    {
        self.channels.get(key)
    }

    /// The input of the packet cell remembered under `key`, if there is one.
    pub fn get_packet(&self, key: &PacketKey) -> (r: Option<&CellInput>)
        ensures
            match r {
                Some(v) => self.packets@.contains_key(*key) && self.packets@[*key] == *v,
                None => !self.packets@.contains_key(*key),
            },
    {
        self.packets.get(key)
    }

    /// Forgets everything at once.
    pub fn clear(&mut self)
        ensures
            final(self).connection is None,
            final(self).channels@ == Map::<ChannelKey, (Channel, CellInput)>::empty(),
            final(self).packets@ == Map::<PacketKey, CellInput>::empty(),
    {
        self.connection = None;
        self.channels.clear();
        self.packets.clear();
    }
}

} // verus!
