//! Allocate synthesizer channels to keys just in time.
use vstd::prelude::*;
use std::collections::{BTreeMap, HashMap, VecDeque};
use std::hash::Hash;
use vstd::std_specs::cmp::OrdSpec;
use vstd::std_specs::hash::obeys_key_model;
use vstd::std_specs::iter::IteratorSpec;
use crate::note::{letter_of, Note};

pub mod jit;
pub mod midi;

pub use self::jit::{IsErr, JitTuner, SynthCall, TunableSynth};
pub use self::midi::{MidiTarget, MidiTunerMessage, MidiTunerMessageHandler, TunableMidi};

verus! {

broadcast use vstd::std_specs::hash::group_hash_axioms, vstd::std_specs::btree::group_btree_axioms;

/// Defines what to do when the channel pool is full and a new key cannot be registered.
#[derive(Clone, Copy, Debug, PartialEq, Eq, Structural)]
pub enum PoolingMode {
    /// Reject the new key.
    Block,
    /// Stop the key that has been tuned for the longest time and reuse its channel.
    Stop,
    /// Reuse the channel of the key that has been tuned for the longest time without stopping it.
    Ignore,
}

/// A pool of channels that are handed out to keys in the order in which they are freed.
#[verifier::reject_recursive_types(K)]
pub struct JitPool<K, C, N> {
    mode: PoolingMode,
    free: VecDeque<C>,
    /// Usage IDs of the keys that currently own their channel; insertion order is conserved.
    tuned: BTreeMap<u64, K>,
    active: HashMap<K, (u64, C, N)>,
    curr_usage_id: u64,
}

/// The mathematical content of a [`JitPool`].
#[verifier::reject_recursive_types(K)]
pub struct JitPoolView<K, C, N> {
    pub mode: PoolingMode,
    /// The free channels, next to be handed out first.
    pub free: Seq<C>,
    /// The keys that own their channel, by usage ID.
    pub tuned: Map<u64, K>,
    /// The sounding keys with their usage ID, channel and note.
    pub active: Map<K, (u64, C, N)>,
    /// The usage ID of the next key.
    pub next_usage_id: nat,
}

/// `usage` is the smallest usage ID of `tuned`.
pub open spec fn is_oldest<K>(tuned: Map<u64, K>, usage: u64) -> bool {
    &&& tuned.dom().contains(usage)
    &&& forall|other: u64| tuned.dom().contains(other) ==> usage <= other
}

/// The key with the smallest usage ID: the one that has been tuned for the longest time.
pub open spec fn oldest_key<K>(tuned: Map<u64, K>) -> K {
    tuned[choose|usage: u64| is_oldest(tuned, usage)]
}

impl<K, C, N> JitPoolView<K, C, N> {
    /// The next key takes the first free channel.
    pub open spec fn inserted(self, key: K, note: N) -> Self {
        JitPoolView {
            free: self.free.drop_first(),
            tuned: self.tuned.insert(self.next_usage_id as u64, key),
            active: self.active.insert(key, (self.next_usage_id as u64, self.free[0], note)),
            next_usage_id: self.next_usage_id + 1,
            ..self
        }
    }

    /// A channel goes back to the free channels if its usage ID still owns it.
    pub open spec fn freed(self, usage: u64, channel: C) -> Self {
        if self.tuned.dom().contains(usage) {
            JitPoolView { tuned: self.tuned.remove(usage), free: self.free.push(channel), ..self }
        } else {
            self
        }
    }

    /// The key stops sounding and frees its channel.
    pub open spec fn released(self, key: K) -> Self {
        if self.active.dom().contains(key) {
            let (usage, channel, _) = self.active[key];
            JitPoolView { active: self.active.remove(key), ..self }.freed(usage, channel)
        } else {
            self
        }
    }

    /// The key keeps sounding but gives up its channel.
    pub open spec fn weakened(self, key: K) -> Self {
        if self.active.dom().contains(key) {
            let (usage, channel, _) = self.active[key];
            self.freed(usage, channel)
        } else {
            self
        }
    }

    /// Whether a full pool has a sounding key whose channel can be taken over.
    pub open spec fn has_old_key(self) -> bool {
        &&& !self.tuned.dom().is_empty()
        &&& self.active.dom().contains(oldest_key(self.tuned))
    }

    /// The state after pressing `key` and the answer: the channel and, when a key had to be
    /// stopped, that key and its note.
    pub open spec fn pressed(self, key: K, note: N) -> (Self, Option<(C, Option<(K, N)>)>) {
        if self.free.len() > 0 {
            (self.inserted(key, note), Some((self.free[0], None)))
        } else if self.mode == PoolingMode::Block || !self.has_old_key() {
            (self, None)
        } else {
            let old_key = oldest_key(self.tuned);
            let (_, channel, old_note) = self.active[old_key];
            if self.mode == PoolingMode::Stop {
                (self.released(old_key).inserted(key, note), Some((channel, Some((old_key, old_note)))))
            } else {
                (self.weakened(old_key).inserted(key, note), Some((channel, None)))
            }
        }
    }

    /// Usage IDs are below the next one and the map of tuned keys is finite.
    pub open spec fn consistent(self) -> bool {
        &&& self.tuned.dom().finite()
        &&& self.next_usage_id <= u64::MAX
        &&& forall|usage: u64| self.tuned.dom().contains(usage) ==> usage < self.next_usage_id
        &&& forall|key: K| self.active.dom().contains(key) ==> self.active[key].0 < self.next_usage_id
    }

    /// Every sounding key owns its channel under its current usage ID.
    pub open spec fn owners_tuned(self) -> bool {
        forall|key: K|
            self.active.dom().contains(key) ==> {
                &&& self.tuned.dom().contains(self.active[key].0)
                &&& self.tuned[self.active[key].0] == key
            }
    }

    /// The invariant of every pool: consistent usage IDs and, unless keys are weakened, sounding
    /// keys that own their channels.
    pub open spec fn valid(self) -> bool {
        &&& self.consistent()
        &&& self.mode != PoolingMode::Ignore ==> self.owners_tuned()
    }

    /// Whether pressing a key stays within the bounds: a new usage ID is available and, in
    /// [`PoolingMode::Ignore`], a full pool frees a channel by weakening its oldest key.
    pub open spec fn can_press(self) -> bool {
        &&& self.next_usage_id < u64::MAX
        &&& (self.mode == PoolingMode::Ignore && self.free.len() == 0 && self.has_old_key())
            ==> self.tuned.dom().contains(self.active[oldest_key(self.tuned)].0)
    }
}

impl<K, C, N> View for JitPool<K, C, N> {
    type V = JitPoolView<K, C, N>;

    closed spec fn view(&self) -> JitPoolView<K, C, N> {
        JitPoolView {
            mode: self.mode,
            free: self.free@,
            tuned: self.tuned@,
            active: self.active@,
            next_usage_id: self.curr_usage_id as nat,
        }
    }
}

impl<K, C, N> JitPool<K, C, N> {
    /// The internal consistency of a pool: usage IDs are handed out in increasing order, and unless
    /// keys are weakened, every sounding key owns its channel under its current usage ID.
    pub open spec fn wf(self) -> bool {
        &&& obeys_key_model::<K>()
        &&& self@.valid()
    }
}

impl<K: Copy + Eq + Hash, C: Copy, N: Copy> JitPool<K, C, N> {
    /// Creates a pool that hands out the given channels in order.
    pub fn new(mode: PoolingMode, channels: Vec<C>) -> (r: Self)
        requires
            obeys_key_model::<K>(),
        ensures
            r.wf(),
            r@.mode == mode,
            r@.free == channels@,
            r@.tuned.is_empty(),
            r@.active.is_empty(),
            r@.next_usage_id == 0,
    {
        let mut free: VecDeque<C> = VecDeque::new();
        let mut i: usize = 0;
        while i < channels.len()
            invariant
                i <= channels@.len(),
                free@ == channels@.take(i as int),
            decreases channels@.len() - i,
        {
            free.push_back(channels[i]);
            i = i + 1;
            assert(free@ =~= channels@.take(i as int));
        }
        assert(channels@.take(i as int) =~= channels@);
        let pool = Self {
            mode,
            free,
            tuned: BTreeMap::new(),
            active: HashMap::new(),
            curr_usage_id: 0,
        };
        assert(pool@.tuned =~= Map::empty());
        pool
    }

    /// Registers `key` with `note` and returns the channel that it is assigned to.
    ///
    /// When no channel is free, [`PoolingMode::Block`] rejects the key, [`PoolingMode::Stop`]
    /// stops the oldest key and returns it, and [`PoolingMode::Ignore`] takes the channel of the
    /// oldest key, which keeps sounding.
    pub fn key_pressed(&mut self, key: K, note: N) -> (r: Option<(C, Option<(K, N)>)>)
        requires
            old(self).wf(),
            old(self)@.can_press(),
        ensures
            final(self).wf(),
            (final(self)@, r) == old(self)@.pressed(key, note),
    {
        if let Some(channel) = self.try_insert(key, note) {
            return Some((channel, None));
        }
        match self.mode {
            PoolingMode::Block => None,
            PoolingMode::Stop => match self.find_old_key() {
                Some((channel, old_key, old_note)) => {
                    let ghost before = self@;
                    self.key_released(&old_key);
                    let inserted = self.try_insert(key, note);
                    assert(inserted is Some);
                    Some((channel, Some((old_key, old_note))))
                },
                None => None,
            },
            PoolingMode::Ignore => match self.find_old_key() {
                Some((channel, old_key, _)) => {
                    self.weaken_key(&old_key);
                    let inserted = self.try_insert(key, note);
                    assert(inserted is Some);
                    Some((channel, None))
                },
                None => None,
            },
        }
    }

    /// Stops `key` and returns its channel and note, if it is sounding.
    pub fn key_released(&mut self, key: &K) -> (r: Option<(C, N)>)
        requires
            old(self).wf(),
        ensures
            final(self).wf(),
            final(self)@ == old(self)@.released(*key),
            r == (if old(self)@.active.dom().contains(*key) {
                Some((old(self)@.active[*key].1, old(self)@.active[*key].2))
            } else {
                None
            }),
    {
        match self.active.remove(key) {
            Some((usage_id, freed_channel, note)) => {
                let ghost removed = self@;
                assert(removed == (JitPoolView { active: old(self)@.active.remove(*key), ..old(self)@ }));
                self.free_key(usage_id, freed_channel);
                proof {
                    let v = old(self)@;
                    if v.mode != PoolingMode::Ignore {
                        assert forall|other: K| self@.active.dom().contains(other) implies {
                            &&& self@.tuned.dom().contains(self@.active[other].0)
                            &&& self@.tuned[self@.active[other].0] == other
                        } by {
                            assert(v.active.dom().contains(other) && other != *key);
                            assert(v.tuned[v.active[other].0] == other);
                            assert(v.active[other].0 != usage_id);
                        }
                    }
                }
                Some((freed_channel, note))
            },
            None => {
                assert(self@.active =~= old(self)@.active);
                None
            },
        }
    }

    /// Returns the channel and note of `key`, if it is sounding.
    pub fn find_key(&self, key: &K) -> (r: Option<(C, N)>)
        requires
            self.wf(),
        ensures
            r == (if self@.active.dom().contains(*key) {
                Some((self@.active[*key].1, self@.active[*key].2))
            } else {
                None
            }),
    {
        match self.active.get(key) {
            Some(entry) => Some((entry.1, entry.2)),
            None => None,
        }
    }

    /// Returns the sounding keys (in no particular order).
    pub fn active_keys(&self) -> (r: Vec<K>)
        requires
            self.wf(),
        ensures
            r@.to_set() == self@.active.dom(),
            r@.no_duplicates(),
    {
        let ghost keys = vstd::std_specs::hash::spec_keys_iter(&self.active).remaining();
        proof {
            vstd::std_specs::hash::axiom_spec_keys_iter(&self.active);
        }
        let mut result: Vec<K> = Vec::new();
        for key in it: self.active.keys()
            invariant
                it.seq() == keys,
                result@ == keys.unref().take(it.index() as int),
                keys.no_duplicates(),
        {
            result.push(*key);
            assert(result@ =~= keys.unref().take(it.index() + 1));
        }
        assert(keys.unref().take(keys.len() as int) =~= keys.unref());
        proof {
            assert forall|i: int, j: int|
                0 <= i < j < result@.len() implies result@[i] != result@[j] by {
                assert(result@[i] == *keys[i]);
                assert(result@[j] == *keys[j]);
            }
        }
        result
    }

    fn try_insert(&mut self, key: K, note: N) -> (r: Option<C>)
        requires
            old(self).wf(),
            old(self)@.next_usage_id < u64::MAX,
        ensures
            final(self).wf(),
            old(self)@.free.len() > 0 ==> final(self)@ == old(self)@.inserted(key, note) && r == Some(
                old(self)@.free[0],
            ),
            old(self)@.free.len() == 0 ==> final(self)@ == old(self)@ && r is None,
    {
        let free_channel = match self.free.pop_front() {
            Some(channel) => channel,
            None => return None,
        };
        let usage_id = self.curr_usage_id;
        self.tuned.insert(usage_id, key);
        self.active.insert(key, (usage_id, free_channel, note));
        self.curr_usage_id = usage_id + 1;
        proof {
            assert(self@.tuned =~= old(self)@.tuned.insert(usage_id, key));
            assert(self@ == old(self)@.inserted(key, note));
        }
        Some(free_channel)
    }

    fn find_old_key(&self) -> (r: Option<(C, K, N)>)
        requires
            self.wf(),
        ensures
            self@.has_old_key() ==> r == Some(
                (
                    self@.active[oldest_key(self@.tuned)].1,
                    oldest_key(self@.tuned),
                    self@.active[oldest_key(self@.tuned)].2,
                ),
            ),
            !self@.has_old_key() ==> r is None,
    {
        let key = match first_value(&self.tuned) {
            Some(key) => key,
            None => return None,
        };
        match self.active.get(&key) {
            Some(entry) => Some((entry.1, key, entry.2)),
            None => None,
        }
    }

    fn weaken_key(&mut self, key: &K)
        requires
            old(self).wf(),
            old(self)@.mode == PoolingMode::Ignore,
        ensures
            final(self).wf(),
            final(self)@ == old(self)@.weakened(*key),
    {
        if let Some(entry) = self.active.get(key) {
            let (usage_id, freed_channel) = (entry.0, entry.1);
            self.free_key(usage_id, freed_channel);
        }
    }

    fn free_key(&mut self, usage_id: u64, freed_channel: C)
        requires
            old(self).wf(),
        ensures
            final(self)@ == old(self)@.freed(usage_id, freed_channel),
    {
        proof {
            assert(vstd::laws_cmp::obeys_cmp::<u64>()) by {
                broadcast use vstd::laws_cmp::group_laws_cmp;
            }
        }
        let removed = self.tuned.remove(&usage_id);
        if removed.is_some() {
            self.free.push_back(freed_channel);
        }
        proof {
            if old(self)@.tuned.dom().contains(usage_id) {
                assert(self@ == old(self)@.freed(usage_id, freed_channel));
            } else {
                assert(self@.tuned =~= old(self)@.tuned);
            }
        }
    }
}

/// A pressed key sounds on the channel that it was given, together with its note.
pub proof fn lemma_pressed_key_is_found<K, C, N>(pool: JitPoolView<K, C, N>, key: K, note: N)
    requires
        pool.valid(),
        pool.can_press(),
        pool.pressed(key, note).1 is Some,
    ensures
        ({
            let (after, answer) = pool.pressed(key, note);
            answer matches Some((channel, _)) && after.active.dom().contains(key) && after.active[key].1
                == channel && after.active[key].2 == note
        }),
{
}

/// In [`PoolingMode::Block`] a key is never stopped and, when no channel is free, the pool stays
/// unchanged and rejects the key.
pub proof fn lemma_block_never_stops<K, C, N>(pool: JitPoolView<K, C, N>, key: K, note: N)
    requires
        pool.mode == PoolingMode::Block,
    ensures
        !(pool.pressed(key, note).1 matches Some((_, Some(_)))),
        pool.free.len() == 0 ==> pool.pressed(key, note) == (pool, None::<(C, Option<(K, N)>)>),
{
}

/// Releasing a key that was just given a free channel puts that channel back at the end of the
/// queue of free channels and forgets the key.
pub proof fn lemma_press_then_release<K, C, N>(pool: JitPoolView<K, C, N>, key: K, note: N)
    requires
        pool.valid(),
        pool.free.len() > 0,
    ensures
        ({
            let after = pool.pressed(key, note).0.released(key);
            &&& after.free == pool.free.drop_first().push(pool.free[0])
            &&& after.tuned == pool.tuned
            &&& after.active == pool.active.remove(key)
        }),
{
    let usage = pool.next_usage_id as u64;
    assert(!pool.tuned.dom().contains(usage));
    assert(pool.tuned.insert(usage, key).remove(usage) =~= pool.tuned);
    assert(pool.active.insert(key, (usage, pool.free[0], note)).remove(key) =~= pool.active.remove(key));
}

/// Channels are neither lost nor duplicated: every press and release keeps the number of free
/// channels plus the number of channels owned by tuned keys.
pub proof fn lemma_channels_are_conserved<K, C, N>(pool: JitPoolView<K, C, N>, key: K, note: N)
    requires
        pool.valid(),
        pool.can_press(),
    ensures
        pool.pressed(key, note).0.free.len() + pool.pressed(key, note).0.tuned.len() == pool.free.len()
            + pool.tuned.len(),
        pool.released(key).free.len() + pool.released(key).tuned.len() == pool.free.len()
            + pool.tuned.len(),
        pool.pressed(key, note).0.consistent(),
        pool.released(key).consistent(),
{
    let usage = pool.next_usage_id as u64;
    assert(!pool.tuned.dom().contains(usage));
    if pool.active.dom().contains(key) {
        let freed = JitPoolView { active: pool.active.remove(key), ..pool };
        let (u, c, _) = pool.active[key];
        if pool.tuned.dom().contains(u) {
            assert(pool.released(key).tuned.len() == pool.tuned.len() - 1);
        }
    }
    if pool.free.len() == 0 && pool.mode != PoolingMode::Block && pool.has_old_key() {
        let old_key = oldest_key(pool.tuned);
        let between = if pool.mode == PoolingMode::Stop {
            pool.released(old_key)
        } else {
            pool.weakened(old_key)
        };
        let (u, c, _) = pool.active[old_key];
        if pool.tuned.dom().contains(u) {
            assert(between.tuned.len() == pool.tuned.len() - 1);
            assert(between.free.len() == pool.free.len() + 1);
        }
        assert(!between.tuned.dom().contains(usage));
    }
}

/// The value stored under the smallest key of the map.
fn first_value<K: Copy>(map: &BTreeMap<u64, K>) -> (r: Option<K>)
    ensures
        r is None <==> map@.is_empty(),
        r is Some ==> r == Some(oldest_key(map@)),
{
    proof {
        vstd::std_specs::btree::axiom_spec_values_iter(map);
    }
    let values = map.values();
    let ghost key_seq = choose|key_seq: Seq<u64>|
        {
            &&& vstd::std_specs::btree::increasing_seq(key_seq)
            &&& key_seq.to_set() == map@.dom()
            &&& key_seq.no_duplicates()
            &&& IteratorSpec::remaining(&values) == key_seq.map(|i: int, k| &map@[k])
        };
    let mut first: Option<K> = None;
    for value in it: values
        invariant
            it.seq() == key_seq.map(|i: int, k| &map@[k]),
            it.index() == 0 ==> first is None,
            it.index() > 0 ==> first == Some(*it.seq()[0]),
    {
        if first.is_none() {
            first = Some(*value);
        }
    }
    proof {
        if first is None {
            assert(key_seq.to_set() =~= Set::empty());
            assert(map@.dom() =~= Set::empty());
        } else {
            let smallest = key_seq[0];
            assert(key_seq.to_set().contains(smallest));
            assert forall|other: u64| map@.dom().contains(other) implies smallest <= other by {
                assert(key_seq.to_set().contains(other));
                let idx = choose|idx: int| 0 <= idx < key_seq.len() && key_seq[idx] == other;
                if idx > 0 {
                    broadcast use vstd::laws_cmp::group_laws_cmp;

                    vstd::std_specs::btree::axiom_increasing_seq_meaning(key_seq);
                    assert(key_seq[0].cmp_spec(&key_seq[idx]) is Less);
                }
            }
            assert(is_oldest(map@, smallest));
            let chosen = choose|usage: u64| is_oldest(map@, usage);
            assert(chosen == smallest);
        }
    }
    first
}


/// Defines the group that is affected by a tuning change.
#[derive(Copy, Clone, Debug, Eq, PartialEq, Structural)]
pub enum GroupBy {
    /// Tuning changes are applied per [`Note`]: notes can be detuned independently within a
    /// channel.
    Note,
    /// Tuning changes are applied per note letter: notes with the same letter in different octaves
    /// need different channels.
    NoteLetter,
    /// Tuning changes always affect the whole channel: `n` keys need `n` channels.
    Channel,
}

/// The group of a note, as a number: the MIDI number, the semitone within the octave or 0.
pub open spec fn group_key(group_by: GroupBy, note: Note) -> i32 {
    match group_by {
        GroupBy::Note => note.midi() as i32,
        GroupBy::NoteLetter => (note.midi() % 12) as i32,
        GroupBy::Channel => 0,
    }
}

impl GroupBy {
    /// The group of a note.
    pub fn group(self, note: Note) -> (r: i32)
        ensures
            r == group_key(self, note),
    {
        match self {
            GroupBy::Note => note.midi_number(),
            GroupBy::NoteLetter => crate::math::i32_rem_u(note.midi_number(), 12u32) as i32,
            GroupBy::Channel => 0,
        }
    }
}

/// Reports the channel and [`Note`] of a registered key.
#[derive(Copy, Clone, Debug, PartialEq, Eq, Structural)]
pub enum AccessKeyResult {
    Found { channel: usize, found_note: Note },
    NotFound,
}

/// Reports the channel and [`Note`] of a newly registered key, and the note that had to be stopped
/// for it, if any.
#[derive(Copy, Clone, Debug, PartialEq, Eq, Structural)]
pub enum RegisterKeyResult {
    Accepted { channel: usize, stopped_note: Option<Note>, started_note: Note },
    Rejected,
}

/// Allocates channels and notes just in time, with one channel pool per group.
#[verifier::reject_recursive_types(K)]
pub struct JitTuningModel<K> {
    num_channels: usize,
    group_by: GroupBy,
    pooling_mode: PoolingMode,
    pools: HashMap<i32, JitPool<K, usize, Note>>,
    groups: HashMap<K, i32>,
}

/// The mathematical content of a [`JitTuningModel`].
#[verifier::reject_recursive_types(K)]
pub struct JitTuningModelView<K> {
    pub num_channels: nat,
    pub group_by: GroupBy,
    pub pooling_mode: PoolingMode,
    /// The channel pool of each group that has been used.
    pub pools: Map<i32, JitPoolView<K, usize, Note>>,
    /// The group of each registered key.
    pub groups: Map<K, i32>,
}

/// The channels `0..num_channels`.
pub open spec fn channel_range(num_channels: nat) -> Seq<usize> {
    Seq::new(num_channels, |i: int| i as usize)
}

impl<K> JitTuningModelView<K> {
    /// The pool of a group: the stored one, or a fresh pool of all channels.
    pub open spec fn pool_of(self, group: i32) -> JitPoolView<K, usize, Note> {
        if self.pools.dom().contains(group) {
            self.pools[group]
        } else {
            JitPoolView {
                mode: self.pooling_mode,
                free: channel_range(self.num_channels),
                tuned: Map::empty(),
                active: Map::empty(),
                next_usage_id: 0,
            }
        }
    }

    /// The state and answer after registering `key` with `note`.
    pub open spec fn registered(self, key: K, note: Note) -> (Self, RegisterKeyResult) {
        let group = group_key(self.group_by, note);
        let (pool, answer) = self.pool_of(group).pressed(key, note);
        let pools = self.pools.insert(group, pool);
        match answer {
            Some((channel, stopped)) => {
                let groups = self.groups.insert(key, group);
                let groups = match stopped {
                    Some((stopped_key, _)) => groups.remove(stopped_key),
                    None => groups,
                };
                (
                    JitTuningModelView { pools, groups, ..self },
                    RegisterKeyResult::Accepted {
                        channel,
                        stopped_note: match stopped {
                            Some((_, stopped_note)) => Some(stopped_note),
                            None => None,
                        },
                        started_note: note,
                    },
                )
            },
            None => (JitTuningModelView { pools, ..self }, RegisterKeyResult::Rejected),
        }
    }

    /// Whether no key sounds.
    pub open spec fn sounds_nothing(self) -> bool {
        forall|key: K| #[trigger] self.lookup(key) is NotFound
    }

    /// Whether `key` sounds in the pool of its group, and with which channel and note.
    pub open spec fn lookup(self, key: K) -> AccessKeyResult {
        if self.groups.dom().contains(key) && self.pools.dom().contains(self.groups[key])
            && self.pools[self.groups[key]].active.dom().contains(key) {
            let entry = self.pools[self.groups[key]].active[key];
            AccessKeyResult::Found { channel: entry.1, found_note: entry.2 }
        } else {
            AccessKeyResult::NotFound
        }
    }

    /// The state after deregistering `key`.
    pub open spec fn deregistered(self, key: K) -> Self {
        if self.lookup(key) is Found {
            let group = self.groups[key];
            JitTuningModelView {
                pools: self.pools.insert(group, self.pools[group].released(key)),
                groups: self.groups.remove(key),
                ..self
            }
        } else {
            self
        }
    }

    /// Whether registering a key with `note` stays within the bounds of its pool.
    pub open spec fn can_register(self, note: Note) -> bool {
        self.pool_of(group_key(self.group_by, note)).can_press()
    }
}

impl<K> View for JitTuningModel<K> {
    type V = JitTuningModelView<K>;

    closed spec fn view(&self) -> JitTuningModelView<K> {
        JitTuningModelView {
            num_channels: self.num_channels as nat,
            group_by: self.group_by,
            pooling_mode: self.pooling_mode,
            pools: self.pools@.map_values(|pool: JitPool<K, usize, Note>| pool@),
            groups: self.groups@,
        }
    }
}

impl<K> JitTuningModel<K> {
    /// The internal consistency of the model: every pool is consistent and uses the pooling mode.
    pub closed spec fn wf(self) -> bool {
        &&& obeys_key_model::<K>()
        &&& obeys_key_model::<i32>()
        &&& self.pools@.dom().finite()
        &&& forall|group: i32| #[trigger]
            self.pools@.dom().contains(group) ==> {
                &&& self.pools@[group].wf()
                &&& self.pools@[group]@.mode == self.pooling_mode
            }
    }
}

impl<K: Copy + Eq + Hash> JitTuningModel<K> {
    pub fn new(num_channels: usize, group_by: GroupBy, pooling_mode: PoolingMode) -> (r: Self)
        requires
            obeys_key_model::<K>(),
        ensures
            r.wf(),
            r@.num_channels == num_channels,
            r@.group_by == group_by,
            r@.pooling_mode == pooling_mode,
            r@.pools.is_empty(),
            r@.groups.is_empty(),
    {
        let model = Self {
            num_channels,
            group_by,
            pooling_mode,
            pools: HashMap::new(),
            groups: HashMap::new(),
        };
        assert(model@.pools =~= Map::empty());
        model
    }

    /// Registers `key`, sounding `note`, in the channel pool of the note's group.
    pub fn register_key(&mut self, key: K, note: Note) -> (r: RegisterKeyResult)
        requires
            old(self).wf(),
            old(self)@.can_register(note),
        ensures
            final(self).wf(),
            (final(self)@, r) == old(self)@.registered(key, note),
    {
        let group = self.group_by.group(note);
        let mut pool = match self.pools.remove(&group) {
            Some(pool) => pool,
            None => {
                let fresh = JitPool::new(self.pooling_mode, channels_up_to(self.num_channels));
                assert(fresh@.tuned =~= Map::empty());
                assert(fresh@.active =~= Map::empty());
                fresh
            },
        };
        assert(pool@ == old(self)@.pool_of(group));
        assert(pool.wf());
        let pressed = pool.key_pressed(key, note);
        self.pools.insert(group, pool);
        proof {
            assert(self@.pools =~= old(self)@.pools.insert(group, pool@));
        }
        match pressed {
            Some((channel, stopped)) => {
                self.groups.insert(key, group);
                let stopped_note = match stopped {
                    Some((stopped_key, stopped_note)) => {
                        self.groups.remove(&stopped_key);
                        Some(stopped_note)
                    },
                    None => None,
                };
                RegisterKeyResult::Accepted { channel, stopped_note, started_note: note }
            },
            None => RegisterKeyResult::Rejected,
        }
    }

    /// Deregisters `key` and reports its channel and note, if it was registered.
    pub fn deregister_key(&mut self, key: K) -> (r: AccessKeyResult)
        requires
            old(self).wf(),
        ensures
            final(self).wf(),
            r == old(self)@.lookup(key),
            final(self)@ == old(self)@.deregistered(key),
    {
        let group = match self.groups.get(&key) {
            Some(group) => *group,
            None => return AccessKeyResult::NotFound,
        };
        let mut pool = match self.pools.remove(&group) {
            Some(pool) => pool,
            None => {
                assert(self.pools@ =~= old(self).pools@);
                return AccessKeyResult::NotFound;
            },
        };
        let released = pool.key_released(&key);
        self.pools.insert(group, pool);
        match released {
            Some((channel, found_note)) => {
                self.groups.remove(&key);
                proof {
                    assert(self@.pools =~= old(self)@.pools.insert(group, pool@));
                }
                AccessKeyResult::Found { channel, found_note }
            },
            None => {
                proof {
                    assert(pool@ == old(self)@.pools[group]);
                    assert(self@.pools =~= old(self)@.pools);
                }
                AccessKeyResult::NotFound
            },
        }
    }

    /// Reports the channel and note of `key`, if it is registered.
    pub fn access_key(&self, key: K) -> (r: AccessKeyResult)
        requires
            self.wf(),
        ensures
            r == self@.lookup(key),
    {
        let group = match self.groups.get(&key) {
            Some(group) => *group,
            None => return AccessKeyResult::NotFound,
        };
        let pool = match self.pools.get(&group) {
            Some(pool) => pool,
            None => return AccessKeyResult::NotFound,
        };
        match pool.find_key(&key) {
            Some((channel, found_note)) => AccessKeyResult::Found { channel, found_note },
            None => AccessKeyResult::NotFound,
        }
    }
}

impl<K: Copy + Eq + Hash> JitTuningModel<K> {
    /// Returns the keys that sound in any pool (in no particular order).
    pub fn active_keys(&self) -> (r: Vec<K>)
        requires
            self.wf(),
        ensures
            forall|key: K|
                r@.contains(key) <==> exists|group: i32|
                    #![trigger self@.pools[group].active.dom().contains(key)]
                    self@.pools.dom().contains(group) && self@.pools[group].active.dom().contains(key),
    {
        let ghost pools = self.pools@;
        let ghost values = vstd::std_specs::hash::spec_values_iter(&self.pools).remaining();
        proof {
            vstd::std_specs::hash::axiom_spec_values_iter(&self.pools);
        }
        let mut keys: Vec<K> = Vec::new();
        for pool in it: self.pools.values()
            invariant
                it.seq() == values,
                values.unref().to_set() == pools.values(),
                pools == self.pools@,
                self.wf(),
                forall|key: K|
                    keys@.contains(key) <==> exists|j: int|
                        0 <= j < it.index() && #[trigger] (*values[j])@.active.dom().contains(key),
        {
            proof {
                assert(values.unref().to_set().contains(*pool));
                let group = choose|group: i32| pools.dom().contains(group) && pools[group] == *pool;
                assert(self.pools@[group].wf());
            }
            let pool_keys = pool.active_keys();
            let ghost before = keys@;
            let mut i: usize = 0;
            while i < pool_keys.len()
                invariant
                    i <= pool_keys@.len(),
                    keys@ == before + pool_keys@.take(i as int),
                decreases pool_keys@.len() - i,
            {
                keys.push(pool_keys[i]);
                i = i + 1;
                assert(keys@ =~= before + pool_keys@.take(i as int));
            }
            assert(pool_keys@.take(i as int) =~= pool_keys@);
            proof {
                assert forall|key: K| keys@.contains(key) <==> exists|j: int|
                    0 <= j < it.index() + 1 && #[trigger] (*values[j])@.active.dom().contains(key) by {
                    if keys@.contains(key) {
                        let k = choose|k: int| 0 <= k < keys@.len() && keys@[k] == key;
                        if k >= before.len() {
                            assert(pool_keys@.contains(key));
                            assert(pool_keys@.to_set().contains(key));
                            assert(*values[it.index() as int] == *pool);
                        } else {
                            assert(before.contains(key));
                        }
                    }
                    if exists|j: int| 0 <= j < it.index() + 1 && #[trigger] (*values[j])@.active.dom().contains(key) {
                        let j = choose|j: int| 0 <= j < it.index() + 1 && #[trigger] (*values[j])@.active.dom().contains(key);
                        if j == it.index() {
                            assert(pool_keys@.to_set().contains(key));
                            let k = choose|k: int| 0 <= k < pool_keys@.len() && pool_keys@[k] == key;
                            assert(keys@[before.len() + k] == key);
                        } else {
                            assert(before.contains(key));
                            let k = choose|k: int| 0 <= k < before.len() && before[k] == key;
                            assert(keys@[k] == key);
                        }
                    }
                }
            }
        }
        proof {
            assert forall|key: K| keys@.contains(key) <==> exists|group: i32|
                #![trigger self@.pools[group].active.dom().contains(key)]
                self@.pools.dom().contains(group) && self@.pools[group].active.dom().contains(key) by {
                if keys@.contains(key) {
                    let j = choose|j: int| 0 <= j < values.len() && #[trigger] (*values[j])@.active.dom().contains(key);
                    assert(values.unref()[j] == *values[j]);
                    assert(values.unref().to_set().contains(*values[j]));
                    let group = choose|group: i32| pools.dom().contains(group) && pools[group] == *values[j];
                    assert(self@.pools[group].active.dom().contains(key));
                }
                if exists|group: i32|
                    #![trigger self@.pools[group].active.dom().contains(key)]
                    self@.pools.dom().contains(group) && self@.pools[group].active.dom().contains(key) {
                    let group = choose|group: i32|
                        #![trigger self@.pools[group].active.dom().contains(key)]
                        self@.pools.dom().contains(group) && self@.pools[group].active.dom().contains(key);
                    assert(pools.values().contains(pools[group]));
                    assert(values.unref().to_set().contains(pools[group]));
                    let j = choose|j: int| 0 <= j < values.len() && values.unref()[j] == pools[group];
                    assert(*values[j] == pools[group]);
                    assert((*values[j])@.active.dom().contains(key));
                }
            }
        }
        keys
    }
}

/// A registered key is found on the channel that registering it reported, sounding the registered
/// note, and deregistering it reports the same; this fails only when the key had to stop itself.
pub proof fn lemma_registered_key_is_found<K>(model: JitTuningModelView<K>, key: K, note: Note)
    requires
        model.pool_of(group_key(model.group_by, note)).valid(),
        model.can_register(note),
        model.registered(key, note).1 matches RegisterKeyResult::Accepted { .. },
        !(model.pool_of(group_key(model.group_by, note)).pressed(key, note).1 matches Some(
            (_, Some((stopped_key, _))),
        ) && stopped_key == key),
    ensures
        ({
            let (after, answer) = model.registered(key, note);
            answer matches RegisterKeyResult::Accepted { channel, .. } && after.lookup(key)
                == AccessKeyResult::Found { channel, found_note: note } && after.deregistered(key).lookup(
                key,
            ) == AccessKeyResult::NotFound
        }),
{
    let group = group_key(model.group_by, note);
    lemma_pressed_key_is_found(model.pool_of(group), key, note);
}

/// Whether `key` sounds in no pool but that of its own group.
pub open spec fn sounds_only_in_its_group<K>(model: JitTuningModelView<K>, key: K) -> bool {
    forall|group: i32|
        #![trigger model.pools[group]]
        model.pools.dom().contains(group) && model.pools[group].active.dom().contains(key)
            ==> model.groups.dom().contains(key) && model.groups[key] == group
}

/// What other keys do never moves a sounding key: deregistering another key leaves its lookup
/// unchanged, and registering another key either leaves it unchanged or stops it, which the
/// registration reports as a stopped note; where the key sounds in its own group only, the report
/// gives its channel and note. A key that does not sound does not start sounding through another
/// key's registration.
pub proof fn lemma_other_keys_keep_lookup<K>(model: JitTuningModelView<K>, key: K, other: K, note: Note)
    requires
        key != other,
    ensures
        model.deregistered(other).lookup(key) == model.lookup(key),
        model.lookup(key) is NotFound ==> model.registered(other, note).0.lookup(key) is NotFound,
        model.lookup(key) matches AccessKeyResult::Found { channel, found_note } ==> {
            let (after, answer) = model.registered(other, note);
            ||| after.lookup(key) == model.lookup(key)
            ||| {
                &&& after.lookup(key) is NotFound
                &&& answer matches RegisterKeyResult::Accepted { stopped_note: Some(_), .. }
                &&& sounds_only_in_its_group(model, key) ==> answer == RegisterKeyResult::Accepted {
                    channel,
                    stopped_note: Some(found_note),
                    started_note: note,
                }
            }
        },
{
    if model.lookup(other) is Found {
        let group = model.groups[other];
        let after = model.deregistered(other);
        if model.groups.dom().contains(key) && model.groups[key] == group {
            assert(after.pools[group].active.dom().contains(key) == model.pools[group].active.dom().contains(key));
        }
    }
    let group = group_key(model.group_by, note);
    let pool = model.pool_of(group);
    let (after, answer) = model.registered(other, note);
    if pool.free.len() > 0 {
    } else if pool.mode == PoolingMode::Block || !pool.has_old_key() {
    } else {
        let old_key = oldest_key(pool.tuned);
        if pool.mode == PoolingMode::Stop && model.lookup(key) is Found && old_key == key {
            assert(after.lookup(key) is NotFound);
            if sounds_only_in_its_group(model, key) {
                assert(model.pools.dom().contains(group));
                assert(model.pools[group].active.dom().contains(key));
                assert(model.groups[key] == group);
            }
        }
    }
}

/// Deregistering a key leaves it unregistered, so that deregistering it again finds nothing and
/// changes nothing; deregistering a key that is not registered changes nothing.
pub proof fn lemma_deregister_twice<K>(model: JitTuningModelView<K>, key: K)
    ensures
        model.deregistered(key).lookup(key) is NotFound,
        model.deregistered(key).deregistered(key) == model.deregistered(key),
        model.lookup(key) is NotFound ==> model.deregistered(key) == model,
{
}

/// How often `note` occurs in `items`.
pub open spec fn count_note<K>(items: Seq<(K, Note)>, note: Note) -> nat
    decreases items.len(),
{
    if items.len() == 0 {
        0
    } else {
        count_note(items.drop_last(), note) + if items.last().1 == note {
            1nat
        } else {
            0nat
        }
    }
}

/// The channel of item `i`: the number of earlier items with the same note, so that every note is
/// tuned at most once per channel.
pub open spec fn channel_of<K>(items: Seq<(K, Note)>, i: int) -> nat {
    count_note(items.take(i), items[i].1)
}

/// The number of channels needed: one more than the largest channel of an item.
pub open spec fn channels_needed<K>(items: Seq<(K, Note)>) -> nat
    decreases items.len(),
{
    if items.len() == 0 {
        0
    } else {
        let previous = channels_needed(items.drop_last());
        let last = channel_of(items, items.len() - 1) + 1;
        if previous < last {
            last
        } else {
            previous
        }
    }
}

/// The key map after assigning, channel by channel and within a channel in input order, every item
/// before `(channel, index)` to its channel.
pub open spec fn assignments<K>(items: Seq<(K, Note)>, channel: nat, index: nat) -> Map<K, (usize, Note)>
    decreases channel, index,
{
    if index > 0 {
        let previous = assignments(items, channel, (index - 1) as nat);
        let i = index - 1;
        if i < items.len() && channel_of(items, i) == channel {
            previous.insert(items[i].0, (channel as usize, items[i].1))
        } else {
            previous
        }
    } else if channel > 0 {
        assignments(items, (channel - 1) as nat, items.len())
    } else {
        Map::empty()
    }
}

/// The indices below `upto` of the items on `channel`, in input order.
pub open spec fn indices_on_channel<K>(items: Seq<(K, Note)>, channel: nat, upto: nat) -> Seq<usize>
    decreases upto,
{
    if upto == 0 {
        Seq::empty()
    } else {
        let previous = indices_on_channel(items, channel, (upto - 1) as nat);
        if channel_of(items, upto - 1) == channel {
            previous.push((upto - 1) as usize)
        } else {
            previous
        }
    }
}

/// The indices of the items on `channel`, in input order.
pub open spec fn items_on_channel<K>(items: Seq<(K, Note)>, channel: nat) -> Seq<usize> {
    indices_on_channel(items, channel, items.len())
}

/// Counting a note in a longer prefix gives at least as many occurrences.
proof fn lemma_count_note_prefix<K>(items: Seq<(K, Note)>, a: int, b: int, note: Note)
    requires
        0 <= a <= b <= items.len(),
    ensures
        count_note(items.take(a), note) <= count_note(items.take(b), note),
    decreases b - a,
{
    if a < b {
        lemma_count_note_prefix(items, a, b - 1, note);
        assert(items.take(b).drop_last() =~= items.take(b - 1));
    }
}

/// Two keys with the same note never share a channel: the later one lies on a later channel.
pub proof fn lemma_one_note_per_channel<K>(items: Seq<(K, Note)>, i: int, j: int)
    requires
        0 <= i < j < items.len(),
        items[i].1 == items[j].1,
    ensures
        channel_of(items, i) < channel_of(items, j),
{
    let note = items[i].1;
    lemma_count_note_prefix(items, i + 1, j, note);
    assert(items.take(i + 1).drop_last() =~= items.take(i));
}

/// Every key lies on one of the channels that are needed.
pub proof fn lemma_channels_needed_bound<K>(items: Seq<(K, Note)>, i: int)
    requires
        0 <= i < items.len(),
    ensures
        channel_of(items, i) < channels_needed(items),
    decreases items.len(),
{
    let last = items.len() - 1;
    if i < last {
        let previous = items.drop_last();
        lemma_channels_needed_bound(previous, i);
        assert(previous.take(i) =~= items.take(i));
    }
}

/// No key occurs twice among the items.
pub open spec fn distinct_keys<K>(items: Seq<(K, Note)>) -> bool {
    forall|a: int, b: int| 0 <= a < b < items.len() ==> #[trigger] items[a].0 != #[trigger] items[b].0
}

/// The assignments before `(channel, index)` hold item `i` exactly when it lies on an earlier
/// channel or earlier on the same channel, with its channel and note; they hold no other key.
proof fn lemma_assignments<K>(items: Seq<(K, Note)>, channel: nat, index: nat, i: int)
    requires
        distinct_keys(items),
        0 <= i < items.len(),
        index <= items.len(),
    ensures
        assignments(items, channel, index).dom().contains(items[i].0) <==> (channel_of(items, i)
            < channel || (channel_of(items, i) == channel && i < index)),
        assignments(items, channel, index).dom().contains(items[i].0) ==> assignments(
            items,
            channel,
            index,
        )[items[i].0] == (channel_of(items, i) as usize, items[i].1),
    decreases channel, index,
{
    if index > 0 {
        lemma_assignments(items, channel, (index - 1) as nat, i);
        let j = index - 1;
        if j != i {
            assert(items[j].0 != items[i].0) by {
                if j < i {
                    assert(items[j].0 != items[i].0);
                } else {
                    assert(items[i].0 != items[j].0);
                }
            }
        }
    } else if channel > 0 {
        lemma_assignments(items, (channel - 1) as nat, items.len(), i);
    }
}

/// The assignments hold no key that is not among the items.
proof fn lemma_assignments_keys<K>(items: Seq<(K, Note)>, channel: nat, index: nat, key: K)
    requires
        assignments(items, channel, index).dom().contains(key),
    ensures
        exists|i: int| 0 <= i < items.len() && #[trigger] items[i].0 == key,
    decreases channel, index,
{
    if index > 0 {
        let j = index - 1;
        if !(j < items.len() && channel_of(items, j) == channel && items[j].0 == key) {
            lemma_assignments_keys(items, channel, (index - 1) as nat, key);
        }
    } else if channel > 0 {
        lemma_assignments_keys(items, (channel - 1) as nat, items.len(), key);
    }
}

/// After [`ChannelTuner::apply_full_keyboard_tuning`] with keys free of duplicates, every key is
/// found with its note on its channel (the number of earlier keys with the same note), which is
/// one of the channels needed, and no other key is found.
pub proof fn lemma_tuned_keys<K>(items: Seq<(K, Note)>, key: K)
    requires
        distinct_keys(items),
    ensures
        forall|i: int|
            0 <= i < items.len() ==> {
                &&& assignments(items, channels_needed(items), 0).dom().contains(#[trigger] items[i].0)
                &&& assignments(items, channels_needed(items), 0)[items[i].0] == (channel_of(
                    items,
                    i,
                ) as usize, items[i].1)
                &&& channel_of(items, i) < channels_needed(items)
            },
        assignments(items, channels_needed(items), 0).dom().contains(key) ==> exists|i: int|
            0 <= i < items.len() && #[trigger] items[i].0 == key,
{
    assert forall|i: int| 0 <= i < items.len() implies {
        &&& assignments(items, channels_needed(items), 0).dom().contains(#[trigger] items[i].0)
        &&& assignments(items, channels_needed(items), 0)[items[i].0] == (channel_of(items, i) as usize, items[i].1)
        &&& channel_of(items, i) < channels_needed(items)
    } by {
        lemma_channels_needed_bound(items, i);
        lemma_assignments(items, channels_needed(items), 0, i);
    }
    if assignments(items, channels_needed(items), 0).dom().contains(key) {
        lemma_assignments_keys(items, channels_needed(items), 0, key);
    }
}

/// The number of channels needed is the largest number of keys that share a note: no note occurs
/// more often, and some note occurs that often (none when there are no keys).
pub proof fn lemma_channels_needed_is_largest_count<K>(items: Seq<(K, Note)>, note: Note)
    ensures
        count_note(items, note) <= channels_needed(items),
        items.len() == 0 ==> channels_needed(items) == 0,
        items.len() > 0 ==> exists|i: int|
            0 <= i < items.len() && count_note(items, #[trigger] items[i].1) == channels_needed(
                items,
            ),
    decreases items.len(),
{
    if items.len() > 0 {
        let previous = items.drop_last();
        let last = items.last();
        lemma_channels_needed_is_largest_count(previous, note);
        assert(items.take(items.len() - 1) =~= previous);
        if channels_needed(items) == channel_of(items, items.len() - 1) + 1 {
            assert(count_note(items, items[items.len() - 1].1) == channels_needed(items));
        } else {
            lemma_channels_needed_is_largest_count(previous, last.1);
            let i = choose|i: int|
                0 <= i < previous.len() && count_note(previous, #[trigger] previous[i].1)
                    == channels_needed(previous);
            lemma_channels_needed_is_largest_count(items.drop_last(), previous[i].1);
            assert(items[i] == previous[i]);
            assert(count_note(items, items[i].1) >= count_note(previous, previous[i].1));
            lemma_count_bound(items, items[i].1);
        }
    }
}

/// No note occurs more often than the number of channels needed.
proof fn lemma_count_bound<K>(items: Seq<(K, Note)>, note: Note)
    ensures
        count_note(items, note) <= channels_needed(items),
    decreases items.len(),
{
    if items.len() > 0 {
        lemma_count_bound(items.drop_last(), note);
        assert(items.take(items.len() - 1) =~= items.drop_last());
    }
}

/// Maps keys across multiple channels so that each note is detuned only once per channel.
#[verifier::reject_recursive_types(K)]
pub struct ChannelTuner<K> {
    key_map: HashMap<K, (usize, Note)>,
    num_channels: usize,
}

impl<K> ChannelTuner<K> {
    /// The channel and note of each key.
    pub closed spec fn key_map_value(self) -> Map<K, (usize, Note)> {
        self.key_map@
    }

    /// The number of channels in use.
    pub closed spec fn num_channels_value(self) -> nat {
        self.num_channels as nat
    }
}

impl<K: Copy + Eq + Hash> ChannelTuner<K> {
    pub fn new() -> (r: Self)
        ensures
            r.key_map_value().is_empty(),
            r.num_channels_value() == 0,
    {
        let tuner = Self { key_map: HashMap::new(), num_channels: 0 };
        assert(tuner.key_map_value() =~= Map::empty());
        tuner
    }

    /// Distributes keys, given with the notes nearest to their pitches, across channels s.t. each
    /// note is tuned only once per channel: the k-th key with a note goes to channel k. Returns the
    /// indices of the keys on each channel, in input order.
    pub fn apply_full_keyboard_tuning(&mut self, keys_and_notes: &[(K, Note)]) -> (r: Vec<Vec<usize>>)
        requires
            obeys_key_model::<K>(),
        ensures
            r@.len() == channels_needed(keys_and_notes@),
            forall|channel: int|
                0 <= channel < r@.len() ==> (#[trigger] r@[channel])@ == items_on_channel(
                    keys_and_notes@,
                    channel as nat,
                ),
            final(self).num_channels_value() == channels_needed(keys_and_notes@),
            final(self).key_map_value() == assignments(
                keys_and_notes@,
                channels_needed(keys_and_notes@),
                0,
            ),
            distinct_keys(keys_and_notes@) ==> forall|i: int|
                0 <= i < keys_and_notes@.len() ==> {
                    &&& final(self).key_map_value().dom().contains(#[trigger] keys_and_notes@[i].0)
                    &&& final(self).key_map_value()[keys_and_notes@[i].0] == (channel_of(
                        keys_and_notes@,
                        i,
                    ) as usize, keys_and_notes@[i].1)
                    &&& channel_of(keys_and_notes@, i) < final(self).num_channels_value()
                },
            forall|key: K|
                final(self).key_map_value().dom().contains(key) ==> exists|i: int|
                    0 <= i < keys_and_notes@.len() && #[trigger] keys_and_notes@[i].0 == key,
            forall|note: Note|
                #[trigger] count_note(keys_and_notes@, note) <= final(self).num_channels_value(),
            keys_and_notes@.len() > 0 ==> exists|i: int|
                0 <= i < keys_and_notes@.len() && count_note(
                    keys_and_notes@,
                    #[trigger] keys_and_notes@[i].1,
                ) == final(self).num_channels_value(),
    {
        let ghost items = keys_and_notes@;
        let n = keys_and_notes.len();
        let mut channels_of: Vec<usize> = Vec::new();
        let mut num_channels: usize = 0;
        let mut i: usize = 0;
        assert(items.take(0) =~= Seq::<(K, Note)>::empty());
        while i < n
            invariant
                n == items.len(),
                items == keys_and_notes@,
                i <= n,
                channels_of@.len() == i,
                forall|j: int| 0 <= j < i ==> #[trigger] channels_of@[j] == channel_of(items, j),
                num_channels == channels_needed(items.take(i as int)),
                num_channels <= i,
            decreases n - i,
        {
            let note = keys_and_notes[i].1;
            let mut count: usize = 0;
            let mut j: usize = 0;
            assert(items.take(0) =~= Seq::<(K, Note)>::empty());
            while j < i
                invariant
                    n == items.len(),
                    items == keys_and_notes@,
                    i < n,
                    j <= i,
                    note == items[i as int].1,
                    count == count_note(items.take(j as int), note),
                    count <= j,
                decreases i - j,
            {
                assert(items.take(j + 1).drop_last() =~= items.take(j as int));
                if keys_and_notes[j].1 == note {
                    count = count + 1;
                }
                j = j + 1;
            }
            proof {
                let longer = items.take(i + 1);
                assert(longer.drop_last() =~= items.take(i as int));
                assert(longer.take(i as int) =~= items.take(i as int));
                assert(channel_of(longer, i as int) == channel_of(items, i as int));
            }
            channels_of.push(count);
            if num_channels < count + 1 {
                num_channels = count + 1;
            }
            i = i + 1;
        }
        assert(items.take(n as int) =~= items);
        self.key_map.clear();
        let mut result: Vec<Vec<usize>> = Vec::new();
        let mut channel: usize = 0;
        while channel < num_channels
            invariant
                n == items.len(),
                items == keys_and_notes@,
                obeys_key_model::<K>(),
                channels_of@.len() == n,
                forall|j: int| 0 <= j < n ==> #[trigger] channels_of@[j] == channel_of(items, j),
                num_channels == channels_needed(items),
                channel <= num_channels,
                result@.len() == channel,
                forall|c: int|
                    0 <= c < channel ==> (#[trigger] result@[c])@ == items_on_channel(items, c as nat),
                self.key_map@ == assignments(items, channel as nat, 0),
            decreases num_channels - channel,
        {
            let mut on_channel: Vec<usize> = Vec::new();
            let mut index: usize = 0;
            while index < n
                invariant
                    n == items.len(),
                    items == keys_and_notes@,
                    obeys_key_model::<K>(),
                    channels_of@.len() == n,
                    forall|j: int| 0 <= j < n ==> #[trigger] channels_of@[j] == channel_of(items, j),
                    index <= n,
                    on_channel@ == indices_on_channel(items, channel as nat, index as nat),
                    self.key_map@ == assignments(items, channel as nat, index as nat),
                decreases n - index,
            {
                if channels_of[index] == channel {
                    on_channel.push(index);
                    let (key, note) = keys_and_notes[index];
                    self.key_map.insert(key, (channel, note));
                }
                index = index + 1;
            }
            result.push(on_channel);
            channel = channel + 1;
        }
        self.num_channels = num_channels;
        proof {
            let items = keys_and_notes@;
            let needed = channels_needed(items);
            if distinct_keys(items) && items.len() > 0 {
                lemma_tuned_keys(items, items[0].0);
            }
            assert forall|key: K| assignments(items, needed, 0).dom().contains(key) implies exists|i: int|
                0 <= i < items.len() && #[trigger] items[i].0 == key by {
                lemma_assignments_keys(items, needed, 0, key);
            }
            assert forall|note: Note| #[trigger] count_note(items, note) <= needed by {
                lemma_channels_needed_is_largest_count(items, note);
            }
            if items.len() > 0 {
                lemma_channels_needed_is_largest_count(items, items[0].1);
            }
        }
        result
    }

    /// Returns the channel and [`Note`] to be played when hitting a `key`.
    pub fn get_channel_and_note_for_key(&self, key: K) -> (r: Option<(usize, Note)>)
        requires
            obeys_key_model::<K>(),
        ensures
            r == (if self.key_map_value().dom().contains(key) {
                Some(self.key_map_value()[key])
            } else {
                None
            }),
    {
        match self.key_map.get(&key) {
            Some(entry) => Some(*entry),
            None => None,
        }
    }

    /// Returns the number of channels that the tuning uses.
    pub fn num_channels(&self) -> (r: usize)
        ensures
            r == self.num_channels_value(),
    {
        self.num_channels
    }
}

/// The channels `0..num_channels` in increasing order.
fn channels_up_to(num_channels: usize) -> (r: Vec<usize>)
    ensures
        r@ == channel_range(num_channels as nat),
{
    let mut channels: Vec<usize> = Vec::new();
    let mut channel: usize = 0;
    while channel < num_channels
        invariant
            channel <= num_channels,
            channels@ == channel_range(channel as nat),
        decreases num_channels - channel,
    {
        channels.push(channel);
        channel = channel + 1;
        assert(channels@ =~= channel_range(channel as nat));
    }
    channels
}

} // verus!
