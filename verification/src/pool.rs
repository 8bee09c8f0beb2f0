//! A channel pool that reports the locations of the keys it had to stop.
use vstd::prelude::*;
use std::hash::Hash;
use vstd::std_specs::hash::obeys_key_model;
use crate::tuner::{JitPool, JitPoolView};

pub use crate::tuner::PoolingMode;

verus! {

/// Assigns channels to keys; each key remembers a location.
#[verifier::reject_recursive_types(K)]
pub struct Pool<C, K, L> {
    inner: JitPool<K, C, L>,
}

impl<C, K, L> View for Pool<C, K, L> {
    type V = JitPoolView<K, C, L>;

    closed spec fn view(&self) -> JitPoolView<K, C, L> {
        self.inner@
    }
}

impl<C, K, L> Pool<C, K, L> {
    /// The internal consistency of the pool (see [`JitPool::wf`]).
    pub closed spec fn wf(self) -> bool {
        self.inner.wf()
    }
}

impl<C: Copy, K: Eq + Hash + Copy, L: Copy> Pool<C, K, L> {
    /// Creates a pool that hands out the given channels in order.
    pub fn new(mode: PoolingMode, channels: Vec<C>) -> (r: Self)
        requires
            obeys_key_model::<K>(),
        ensures
            r.wf(),
            r@.mode == mode,
            r@.free == channels@,
            r@.tuned.is_empty(),
            r@.active.is_empty(),
            r@.next_usage_id == 0,
    {
        Pool { inner: JitPool::new(mode, channels) }
    }

    /// Registers `key` at `location` and returns its channel together with the location of the key
    /// that had to be stopped, if any.
    pub fn key_pressed(&mut self, key: K, location: L) -> (r: Option<(C, Option<L>)>)
        requires
            old(self).wf(),
            old(self)@.can_press(),
        ensures
            final(self).wf(),
            final(self)@ == old(self)@.pressed(key, location).0,
            r == match old(self)@.pressed(key, location).1 {
                Some((channel, Some((_, old_location)))) => Some((channel, Some(old_location))),
                Some((channel, None)) => Some((channel, None)),
                None => None,
            },
    {
        match self.inner.key_pressed(key, location) {
            Some((channel, Some((_, old_location)))) => Some((channel, Some(old_location))),
            Some((channel, None)) => Some((channel, None)),
            None => None,
        }
    }

    /// Stops `key` and returns its channel, if it is sounding.
    pub fn key_released(&mut self, key: &K) -> (r: Option<C>)
        requires
            old(self).wf(),
        ensures
            final(self).wf(),
            final(self)@ == old(self)@.released(*key),
            r == (if old(self)@.active.dom().contains(*key) {
                Some(old(self)@.active[*key].1)
            } else {
                None
            }),
    {
        match self.inner.key_released(key) {
            Some((channel, _)) => Some(channel),
            None => None,
        }
    }

    /// Returns the channel of `key`, if it is sounding.
    pub fn channel_for_key(&self, key: &K) -> (r: Option<C>)
        requires
            self.wf(),
        ensures
            r == (if self@.active.dom().contains(*key) {
                Some(self@.active[*key].1)
            } else {
                None
            }),
    {
        match self.inner.find_key(key) {
            Some((channel, _)) => Some(channel),
            None => None,
        }
    }
}

} // verus!
