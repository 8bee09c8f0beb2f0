//! Driving note-based multichannel synthesizers just in time.
//!
//! The tuners of this module are specified by the calls they make to their synthesizer, which
//! they record as ghost state; each call that a method makes is also stated over the synthesizer
//! itself, through the `call_ensures` of the synthesizer's method, from its state before to its
//! state after.
use std::hash::Hash;
use vstd::prelude::*;
use vstd::std_specs::hash::obeys_key_model;

use crate::note::Note;
use crate::tuner::{
    AccessKeyResult, GroupBy, JitTuningModel, JitTuningModelView, PoolingMode, RegisterKeyResult,
};

verus! {

/// The outcome of a synthesizer call, which may have failed.
pub trait IsErr: Sized {
    /// Whether the call failed.
    spec fn failed(&self) -> bool;

    fn is_err(&self) -> (r: bool)
        ensures
            r == self.failed(),
    ;

    /// The outcome of a call that succeeded.
    fn ok() -> (r: Self)
        ensures
            !r.failed(),
    ;
}

impl IsErr for () {
    open spec fn failed(&self) -> bool {
        false
    }

    fn is_err(&self) -> (r: bool) {
        false
    }

    fn ok() -> (r: Self) {
    }
}

impl<T: Default, E> IsErr for Result<T, E> {
    open spec fn failed(&self) -> bool {
        self is Err
    }

    fn is_err(&self) -> (r: bool) {
        match self {
            Ok(_) => false,
            Err(_) => true,
        }
    }

    fn ok() -> (r: Self) {
        Ok(T::default())
    }
}

/// A call received by a [`TunableSynth`].
#[allow(inconsistent_fields)]
pub enum SynthCall<D, A, G> {
    NotesDetune { channel: usize, detuned_notes: Seq<(Note, D)> },
    NoteOn { channel: usize, started_note: Note, attr: A },
    NoteOff { channel: usize, stopped_note: Note, attr: A },
    NoteAttr { channel: usize, affected_note: Note, attr: A },
    GlobalAttr { attr: G },
}

/// A note-based multichannel synthesizer with note detuning capabilities.
///
/// The detuning of a note is a value of the associated type `Detuning`, which the synthesizer
/// interprets; the tuners of this module carry it through unchanged.
pub trait TunableSynth: Sized {
    type Result: IsErr;
    type NoteAttr: Clone + Default;
    type GlobalAttr;
    type Detuning: Copy;

    fn num_channels(&self) -> usize;

    fn group_by(&self) -> GroupBy;

    fn notes_detune(&mut self, channel: usize, detuned_notes: &[(Note, Self::Detuning)]) -> Self::Result;

    fn note_on(&mut self, channel: usize, started_note: Note, attr: Self::NoteAttr) -> Self::Result;

    fn note_off(&mut self, channel: usize, stopped_note: Note, attr: Self::NoteAttr) -> Self::Result;

    fn note_attr(&mut self, channel: usize, affected_note: Note, attr: Self::NoteAttr) -> Self::Result;

    fn global_attr(&mut self, attr: Self::GlobalAttr) -> Self::Result;
}

/// The calls of [`JitTuner::note_on`] for an accepted key: stop the note that had to make way,
/// detune the started note, start it.
pub open spec fn note_on_calls<D, A, G>(
    channel: usize,
    stopped_note: Option<Note>,
    started_note: Note,
    detuning: D,
    stop_attr: A,
    attr: A,
) -> Seq<SynthCall<D, A, G>> {
    let stop = match stopped_note {
        Some(stopped_note) => seq![SynthCall::NoteOff { channel, stopped_note, attr: stop_attr }],
        None => Seq::empty(),
    };
    stop + seq![
        SynthCall::NotesDetune { channel, detuned_notes: seq![(started_note, detuning)] },
        SynthCall::NoteOn { channel, started_note, attr },
    ]
}

/// Whether `after` extends `before` by a non-empty prefix of `calls`, stopping early only at a
/// call that failed, whose outcome is `outcome_failed`.
pub open spec fn made_calls<D, A, G>(
    before: Seq<SynthCall<D, A, G>>,
    after: Seq<SynthCall<D, A, G>>,
    calls: Seq<SynthCall<D, A, G>>,
    outcome_failed: bool,
) -> bool {
    exists|made: int|
        1 <= made <= calls.len() && after == before + calls.take(made) && (made < calls.len()
            ==> outcome_failed)
}

/// The calls that a tuner of synthesizer `S` makes.
pub type SynthCalls<S> = Seq<
    SynthCall<<S as TunableSynth>::Detuning, <S as TunableSynth>::NoteAttr, <S as TunableSynth>::GlobalAttr>,
>;

/// A tuner that allocates channels and detunes notes just in time: each started note is detuned
/// on a channel of its group that is free or, depending on the pooling mode, taken over.
#[verifier::reject_recursive_types(K)]
pub struct JitTuner<K, S: TunableSynth> {
    model: JitTuningModel<K>,
    synth: S,
    calls: Ghost<SynthCalls<S>>,
}

impl<K, S: TunableSynth> JitTuner<K, S> {
    /// The channel allocation of the tuner.
    pub closed spec fn model(self) -> JitTuningModelView<K> {
        self.model@
    }

    /// The calls that the tuner has made to its synthesizer, in order.
    pub closed spec fn calls(self) -> SynthCalls<S> {
        self.calls@
    }

    /// The synthesizer that the tuner drives.
    pub closed spec fn synth(self) -> S {
        self.synth
    }

    /// The channel allocation is consistent.
    pub closed spec fn wf(self) -> bool {
        self.model.wf()
    }

    fn send_notes_detune(&mut self, channel: usize, note: Note, detuning: S::Detuning) -> (r: S::Result)
        ensures
            final(self).model == old(self).model,
            final(self).calls() == old(self).calls().push(
                SynthCall::NotesDetune { channel, detuned_notes: seq![(note, detuning)] },
            ),
            exists|synth: &mut S, notes: &[(Note, S::Detuning)]|
                #[trigger] call_ensures(S::notes_detune, (synth, channel, notes), r)
                    && notes@ == seq![(note, detuning)] && *synth == old(self).synth()
                    && *final(synth) == final(self).synth(),
    {
        let detuned = [(note, detuning)];
        let r = self.synth.notes_detune(channel, &detuned);
        proof {
            assert(detuned@ =~= seq![(note, detuning)]);
            self.calls@ = self.calls@.push(
                SynthCall::NotesDetune { channel, detuned_notes: detuned@ },
            );
        }
        r
    }

    fn send_note_on(&mut self, channel: usize, started_note: Note, attr: S::NoteAttr) -> (r: S::Result)
        ensures
            final(self).model == old(self).model,
            final(self).calls() == old(self).calls().push(
                SynthCall::NoteOn { channel, started_note, attr },
            ),
            exists|synth: &mut S|
                #[trigger] call_ensures(S::note_on, (synth, channel, started_note, attr), r)
                    && *synth == old(self).synth() && *final(synth) == final(self).synth(),
    {
        let ghost call = SynthCall::NoteOn { channel, started_note, attr };
        let r = self.synth.note_on(channel, started_note, attr);
        proof {
            self.calls@ = self.calls@.push(call);
        }
        r
    }

    fn send_note_off(&mut self, channel: usize, stopped_note: Note, attr: S::NoteAttr) -> (r: S::Result)
        ensures
            final(self).model == old(self).model,
            final(self).calls() == old(self).calls().push(
                SynthCall::NoteOff { channel, stopped_note, attr },
            ),
            exists|synth: &mut S|
                #[trigger] call_ensures(S::note_off, (synth, channel, stopped_note, attr), r)
                    && *synth == old(self).synth() && *final(synth) == final(self).synth(),
    {
        let ghost call = SynthCall::NoteOff { channel, stopped_note, attr };
        let r = self.synth.note_off(channel, stopped_note, attr);
        proof {
            self.calls@ = self.calls@.push(call);
        }
        r
    }

    fn send_note_attr(&mut self, channel: usize, affected_note: Note, attr: S::NoteAttr) -> (r: S::Result)
        ensures
            final(self).model == old(self).model,
            final(self).calls() == old(self).calls().push(
                SynthCall::NoteAttr { channel, affected_note, attr },
            ),
            exists|synth: &mut S|
                #[trigger] call_ensures(S::note_attr, (synth, channel, affected_note, attr), r)
                    && *synth == old(self).synth() && *final(synth) == final(self).synth(),
    {
        let ghost call = SynthCall::NoteAttr { channel, affected_note, attr };
        let r = self.synth.note_attr(channel, affected_note, attr);
        proof {
            self.calls@ = self.calls@.push(call);
        }
        r
    }
}

impl<K: Copy + Eq + Hash, S: TunableSynth> JitTuner<K, S> {
    /// Starts a new [`JitTuner`] with the given `synth` and `pooling_mode`, with as many channels
    /// and the same grouping as the synthesizer has.
    pub fn start(synth: S, pooling_mode: PoolingMode) -> (r: Self)
        requires
            obeys_key_model::<K>(),
        ensures
            r.wf(),
            r.model().pooling_mode == pooling_mode,
            r.model().pools.is_empty(),
            r.model().groups.is_empty(),
            r.calls() == Seq::<SynthCall<S::Detuning, S::NoteAttr, S::GlobalAttr>>::empty(),
    {
        let model = JitTuningModel::new(synth.num_channels(), synth.group_by(), pooling_mode);
        Self { model, synth, calls: Ghost(Seq::empty()) }
    }

    /// Starts `note` with the given detuning for `key`, which identifies the sounding note.
    ///
    /// If the key is accepted, the note that had to make way is stopped first (with a clone of
    /// `attr`), then the started note is detuned and started; the calls stop at the first one that
    /// fails, whose outcome is returned. A rejected key makes no call.
    pub fn note_on(&mut self, key: K, note: Note, detuning: S::Detuning, attr: S::NoteAttr) -> (r:
        S::Result)
        requires
            old(self).wf(),
            old(self).model().can_register(note),
        ensures
            final(self).wf(),
            final(self).model() == old(self).model().registered(key, note).0,
            match old(self).model().registered(key, note).1 {
                RegisterKeyResult::Accepted { channel, stopped_note, started_note } => exists|
                    stop_attr: S::NoteAttr,
                |
                    (stopped_note is Some ==> cloned::<S::NoteAttr>(attr, stop_attr)) && made_calls(
                        old(self).calls(),
                        final(self).calls(),
                        note_on_calls(
                            channel,
                            stopped_note,
                            started_note,
                            detuning,
                            stop_attr,
                            attr,
                        ),
                        r.failed(),
                    ) && match stopped_note {
                        Some(stopped_note) => exists|stop: &mut S, stop_result: S::Result|
                            #[trigger] call_ensures(
                                S::note_off,
                                (stop, channel, stopped_note, stop_attr),
                                stop_result,
                            ) && *stop == old(self).synth() && (stop_result.failed() ==> r
                                == stop_result && final(self).synth() == *final(stop))
                                && (!stop_result.failed() ==> exists|
                                    detune: &mut S,
                                    notes: &[(Note, S::Detuning)],
                                    detune_result: S::Result,
                                |
                                    #[trigger] call_ensures(S::notes_detune, (detune, channel, notes), detune_result)
                                        && notes@ == seq![(started_note, detuning)] && *detune == *final(stop)
                                        && (detune_result.failed() ==> r == detune_result
                                            && final(self).synth() == *final(detune))
                                        && (!detune_result.failed() ==> exists|start: &mut S|
                                            #[trigger] call_ensures(
                                                S::note_on,
                                                (start, channel, started_note, attr),
                                                r,
                                            ) && *start == *final(detune) && *final(start) == final(self).synth())),
                        None => exists|
                            detune: &mut S,
                            notes: &[(Note, S::Detuning)],
                            detune_result: S::Result,
                        |
                            #[trigger] call_ensures(S::notes_detune, (detune, channel, notes), detune_result)
                                && notes@ == seq![(started_note, detuning)] && *detune == old(self).synth()
                                && (detune_result.failed() ==> r == detune_result
                                    && final(self).synth() == *final(detune))
                                && (!detune_result.failed() ==> exists|start: &mut S|
                                    #[trigger] call_ensures(
                                        S::note_on,
                                        (start, channel, started_note, attr),
                                        r,
                                    ) && *start == *final(detune) && *final(start) == final(self).synth()),
                    },
                RegisterKeyResult::Rejected => !r.failed() && final(self).calls() == old(
                    self,
                ).calls() && final(self).synth() == old(self).synth(),
            },
    {
        let ghost before = self.calls@;
        match self.model.register_key(key, note) {
            RegisterKeyResult::Accepted { channel, stopped_note, started_note } => {
                let stop_attr = attr.clone();
                assert(cloned::<S::NoteAttr>(attr, stop_attr));
                let ghost calls = note_on_calls::<S::Detuning, S::NoteAttr, S::GlobalAttr>(
                    channel,
                    stopped_note,
                    started_note,
                    detuning,
                    stop_attr,
                    attr,
                );
                let ghost skip: int = if stopped_note is Some {
                    1
                } else {
                    0
                };
                if let Some(stopped_note) = stopped_note {
                    let result = self.send_note_off(channel, stopped_note, stop_attr);
                    if result.is_err() {
                        assert(self.calls() =~= before + calls.take(1));
                        assert(made_calls(before, self.calls(), calls, result.failed()));
                        return result;
                    }
                }
                assert(self.calls() =~= before + calls.take(skip));
                let result = self.send_notes_detune(channel, started_note, detuning);
                assert(self.calls() =~= before + calls.take(skip + 1));
                if result.is_err() {
                    assert(made_calls(before, self.calls(), calls, result.failed()));
                    return result;
                }
                let result = self.send_note_on(channel, started_note, attr);
                assert(self.calls() =~= before + calls.take(skip + 2));
                result
            },
            RegisterKeyResult::Rejected => S::Result::ok(),
        }
    }

    /// Stops the note of the given `key`, if it sounds.
    pub fn note_off(&mut self, key: K, attr: S::NoteAttr) -> (r: S::Result)
        requires
            old(self).wf(),
        ensures
            final(self).wf(),
            final(self).model() == old(self).model().deregistered(key),
            match old(self).model().lookup(key) {
                AccessKeyResult::Found { channel, found_note } => {
                    &&& final(self).calls() == old(self).calls().push(
                        SynthCall::NoteOff { channel, stopped_note: found_note, attr },
                    )
                    &&& exists|synth: &mut S|
                        #[trigger] call_ensures(S::note_off, (synth, channel, found_note, attr), r)
                            && *synth == old(self).synth() && *final(synth) == final(self).synth()
                },
                AccessKeyResult::NotFound => !r.failed() && final(self).calls() == old(
                    self,
                ).calls() && final(self).synth() == old(self).synth(),
            },
    {
        match self.model.deregister_key(key) {
            AccessKeyResult::Found { channel, found_note } => self.send_note_off(
                channel,
                found_note,
                attr,
            ),
            AccessKeyResult::NotFound => S::Result::ok(),
        }
    }

    /// Updates the detuning of the note of `key`, if it sounds: `detuning_of` gives the detuning
    /// for the note that the key sounds.
    pub fn note_pitch<F: Fn(Note) -> S::Detuning>(&mut self, key: K, detuning_of: F) -> (r:
        S::Result)
        requires
            old(self).wf(),
            forall|note: Note| #[trigger] detuning_of.requires((note,)),
        ensures
            final(self).wf(),
            final(self).model() == old(self).model(),
            match old(self).model().lookup(key) {
                AccessKeyResult::Found { channel, found_note } => exists|detuning: S::Detuning|
                    #[trigger] detuning_of.ensures((found_note,), detuning) && final(self).calls()
                        == old(self).calls().push(
                        SynthCall::NotesDetune {
                            channel,
                            detuned_notes: seq![(found_note, detuning)],
                        },
                    ) && exists|synth: &mut S, notes: &[(Note, S::Detuning)]|
                        #[trigger] call_ensures(S::notes_detune, (synth, channel, notes), r)
                            && notes@ == seq![(found_note, detuning)] && *synth == old(self).synth()
                            && *final(synth) == final(self).synth(),
                AccessKeyResult::NotFound => !r.failed() && final(self).calls() == old(
                    self,
                ).calls() && final(self).synth() == old(self).synth(),
            },
    {
        match self.model.access_key(key) {
            AccessKeyResult::Found { channel, found_note } => {
                let detuning = detuning_of(found_note);
                self.send_notes_detune(channel, found_note, detuning)
            },
            AccessKeyResult::NotFound => S::Result::ok(),
        }
    }

    /// Sets a polyphonic attribute for the note of `key`, if it sounds.
    pub fn note_attr(&mut self, key: K, attr: S::NoteAttr) -> (r: S::Result)
        requires
            old(self).wf(),
        ensures
            final(self).wf(),
            final(self).model() == old(self).model(),
            match old(self).model().lookup(key) {
                AccessKeyResult::Found { channel, found_note } => {
                    &&& final(self).calls() == old(self).calls().push(
                        SynthCall::NoteAttr { channel, affected_note: found_note, attr },
                    )
                    &&& exists|synth: &mut S|
                        #[trigger] call_ensures(S::note_attr, (synth, channel, found_note, attr), r)
                            && *synth == old(self).synth() && *final(synth) == final(self).synth()
                },
                AccessKeyResult::NotFound => !r.failed() && final(self).calls() == old(
                    self,
                ).calls() && final(self).synth() == old(self).synth(),
            },
    {
        match self.model.access_key(key) {
            AccessKeyResult::Found { channel, found_note } => self.send_note_attr(
                channel,
                found_note,
                attr,
            ),
            AccessKeyResult::NotFound => S::Result::ok(),
        }
    }

    /// Sets a channel-global attribute.
    pub fn global_attr(&mut self, attr: S::GlobalAttr) -> (r: S::Result)
        requires
            old(self).wf(),
        ensures
            final(self).wf(),
            final(self).model() == old(self).model(),
            final(self).calls() == old(self).calls().push(SynthCall::GlobalAttr { attr }),
            exists|synth: &mut S|
                #[trigger] call_ensures(S::global_attr, (synth, attr), r) && *synth == old(
                    self,
                ).synth() && *final(synth) == final(self).synth(),
    {
        let ghost call = SynthCall::GlobalAttr { attr };
        let r = self.synth.global_attr(attr);
        proof {
            self.calls@ = self.calls@.push(call);
        }
        r
    }
}

/// Deregistering one key leaves what the others sound unchanged.
proof fn lemma_deregistering_keeps_others<K>(model: JitTuningModelView<K>, a: K, b: K)
    requires
        a != b,
    ensures
        model.deregistered(a).lookup(b) == model.lookup(b),
{
    if model.lookup(a) is Found {
        let group = model.groups[a];
        let after = model.deregistered(a);
        assert(after.groups.dom().contains(b) == model.groups.dom().contains(b));
        if model.groups.dom().contains(b) {
            assert(after.groups[b] == model.groups[b]);
            if model.groups[b] == group {
                assert(after.pools[group].active =~= model.pools[group].active.remove(a));
            }
        }
    }
}

/// The note-offs that stop the notes of `keys` as `model` sounds them, with the given attributes.
pub open spec fn stop_calls<K, D, A, G>(
    model: JitTuningModelView<K>,
    keys: Seq<K>,
    attrs: Seq<A>,
) -> Seq<SynthCall<D, A, G>> {
    Seq::new(
        keys.len(),
        |i: int|
            SynthCall::NoteOff {
                channel: model.lookup(keys[i])->channel,
                stopped_note: model.lookup(keys[i])->found_note,
                attr: attrs[i],
            },
    )
}

/// Whether `keys` are the keys that sound in `model`, each once.
pub open spec fn sounding_keys<K>(model: JitTuningModelView<K>, keys: Seq<K>) -> bool {
    &&& keys.no_duplicates()
    &&& forall|key: K| #[trigger] keys.contains(key) <==> model.lookup(key) is Found
}

impl<K: Copy + Eq + Hash, S: TunableSynth> JitTuner<K, S> {
    /// Stops every sounding note, leaving no key registered: each key that sounds gets exactly one
    /// note-off for its channel and note, with the default note attribute, in some order. The first
    /// note-off goes to the synthesizer as it was, and the synthesizer is left as the last note-off
    /// left it; of the states in between, only the call record is stated. Where no key sounds, no
    /// call is made and the synthesizer is unchanged.
    pub fn stop_all_notes(&mut self)
        requires
            old(self).wf(),
        ensures
            final(self).wf(),
            final(self).model().sounds_nothing(),
            exists|keys: Seq<K>, attrs: Seq<S::NoteAttr>|
                #![trigger sounding_keys(old(self).model(), keys), attrs.len()]
                {
                    &&& sounding_keys(old(self).model(), keys)
                    &&& attrs.len() == keys.len()
                    &&& final(self).calls() == old(self).calls() + stop_calls(
                        old(self).model(),
                        keys,
                        attrs,
                    )
                    &&& forall|i: int|
                        0 <= i < keys.len() ==> call_ensures(
                            S::NoteAttr::default,
                            (),
                            #[trigger] attrs[i],
                        )
                    &&& keys.len() > 0 ==> exists|first: &mut S, res: S::Result|
                        #[trigger] call_ensures(
                            S::note_off,
                            (
                                first,
                                old(self).model().lookup(keys[0])->channel,
                                old(self).model().lookup(keys[0])->found_note,
                                attrs[0],
                            ),
                            res,
                        ) && *first == old(self).synth()
                    &&& keys.len() > 0 ==> exists|last: &mut S, res: S::Result|
                        #[trigger] call_ensures(
                            S::note_off,
                            (
                                last,
                                old(self).model().lookup(keys.last())->channel,
                                old(self).model().lookup(keys.last())->found_note,
                                attrs.last(),
                            ),
                            res,
                        ) && *final(last) == final(self).synth()
                },
            old(self).model().sounds_nothing() ==> final(self).synth() == old(self).synth(),
    {
        let ghost before = self.calls@;
        let ghost original = self.model@;
        let active_keys = self.model.active_keys();
        let ghost mut keys: Seq<K> = Seq::empty();
        let ghost mut attrs: Seq<S::NoteAttr> = Seq::empty();
        let ghost synth0 = self.synth;
        proof {
            assert(before + stop_calls::<K, S::Detuning, S::NoteAttr, S::GlobalAttr>(
                original,
                keys,
                attrs,
            ) =~= before);
            assert forall|key: K| #[trigger] original.lookup(key) is Found implies active_keys@.contains(
                key,
            ) by {
                let group = original.groups[key];
                assert(original.pools.dom().contains(group) && original.pools[group].active.dom().contains(
                    key,
                ));
            }
        }
        let mut i: usize = 0;
        assert(active_keys@.subrange(0, active_keys@.len() as int) =~= active_keys@);
        while i < active_keys.len()
            invariant
                self.wf(),
                i <= active_keys@.len(),
                keys.no_duplicates(),
                attrs.len() == keys.len(),
                keys.len() == 0 ==> self.synth == synth0,
                self.calls() == before + stop_calls(original, keys, attrs),
                forall|key: K| #[trigger]
                    keys.contains(key) ==> original.lookup(key) is Found && self.model().lookup(
                        key,
                    ) is NotFound,
                forall|key: K|
                    #![trigger self.model().lookup(key)]
                    self.model().lookup(key) is Found ==> self.model().lookup(key) == original.lookup(
                        key,
                    ) && active_keys@.subrange(i as int, active_keys@.len() as int).contains(key),
                forall|key: K|
                    #![trigger original.lookup(key)]
                    original.lookup(key) is Found ==> keys.contains(key) || self.model().lookup(key)
                        is Found,
                forall|j: int|
                    0 <= j < keys.len() ==> call_ensures(S::NoteAttr::default, (), #[trigger] attrs[j]),
                keys.len() > 0 ==> exists|first: &mut S, res: S::Result|
                    #[trigger] call_ensures(
                        S::note_off,
                        (
                            first,
                            original.lookup(keys[0])->channel,
                            original.lookup(keys[0])->found_note,
                            attrs[0],
                        ),
                        res,
                    ) && *first == synth0,
                keys.len() > 0 ==> exists|last: &mut S, res: S::Result|
                    #[trigger] call_ensures(
                        S::note_off,
                        (
                            last,
                            original.lookup(keys.last())->channel,
                            original.lookup(keys.last())->found_note,
                            attrs.last(),
                        ),
                        res,
                    ) && *final(last) == self.synth,
            decreases active_keys@.len() - i,
        {
            let key = active_keys[i];
            let attr = S::NoteAttr::default();
            let ghost model_before = self.model();
            proof {
                crate::tuner::lemma_deregister_twice(model_before, key);
            }
            let ghost keys_prev = keys;
            let ghost attrs_prev = attrs;
            let ghost synth_before = self.synth;
            let res = self.note_off(key, attr);
            proof {
                assert(call_ensures(S::NoteAttr::default, (), attr));
                assert forall|other: K| other != key implies #[trigger] self.model().lookup(other)
                    == model_before.lookup(other) by {
                    lemma_deregistering_keeps_others(model_before, key, other);
                }
                if model_before.lookup(key) is Found {
                    let ghost keys_before = keys;
                    let ghost attrs_before = attrs;
                    keys = keys.push(key);
                    attrs = attrs.push(attr);
                    assert(!keys_before.contains(key));
                    assert forall|x: int, y: int| 0 <= x < y < keys.len() implies keys[x] != keys[y] by {
                        if y == keys.len() - 1 {
                            assert(keys_before.contains(keys[x]));
                        } else {
                            assert(keys_before[x] != keys_before[y]);
                        }
                    }
                    assert forall|k: K| #[trigger] keys.contains(k) implies original.lookup(k) is Found
                        && self.model().lookup(k) is NotFound by {
                        if k != key {
                            assert(keys_before.contains(k));
                        }
                    }
                    assert(stop_calls::<K, S::Detuning, S::NoteAttr, S::GlobalAttr>(
                        original,
                        keys,
                        attrs,
                    ) =~= stop_calls::<K, S::Detuning, S::NoteAttr, S::GlobalAttr>(
                        original,
                        keys_before,
                        attrs_before,
                    ).push(
                        SynthCall::NoteOff {
                            channel: original.lookup(key)->channel,
                            stopped_note: original.lookup(key)->found_note,
                            attr,
                        },
                    ));
                    assert(self.calls() =~= before + stop_calls(original, keys, attrs));
                    let channel = model_before.lookup(key)->channel;
                    let found_note = model_before.lookup(key)->found_note;
                    let off = choose|off: &mut S|
                        #[trigger] call_ensures(S::note_off, (off, channel, found_note, attr), res)
                            && *off == synth_before && *final(off) == self.synth;
                    assert(keys.last() == key && attrs.last() == attr);
                    assert(call_ensures(
                        S::note_off,
                        (
                            off,
                            original.lookup(keys.last())->channel,
                            original.lookup(keys.last())->found_note,
                            attrs.last(),
                        ),
                        res,
                    ));
                    if keys_before.len() == 0 {
                        assert(keys[0] == key && attrs[0] == attr && *off == synth0);
                    } else {
                        assert(keys[0] == keys_before[0] && attrs[0] == attrs_before[0]);
                    }
                    assert forall|j: int| 0 <= j < keys.len() implies call_ensures(
                        S::NoteAttr::default,
                        (),
                        #[trigger] attrs[j],
                    ) by {
                        if j < keys_before.len() {
                            assert(attrs[j] == attrs_before[j]);
                        }
                    }
                }
                let rest = active_keys@.subrange(i as int, active_keys@.len() as int);
                let next = active_keys@.subrange(i + 1, active_keys@.len() as int);
                assert forall|k: K|
                    #![trigger self.model().lookup(k)]
                    self.model().lookup(k) is Found implies self.model().lookup(k) == original.lookup(k)
                        && next.contains(k) by {
                    assert(k != key);
                    assert(rest.contains(k));
                    let m = choose|m: int| 0 <= m < rest.len() && rest[m] == k;
                    assert(m != 0);
                    assert(next[m - 1] == k);
                }
                assert forall|k: K|
                    #![trigger original.lookup(k)]
                    original.lookup(k) is Found implies keys.contains(k) || self.model().lookup(k)
                        is Found by {
                    if keys_prev.contains(k) {
                        let m = choose|m: int| 0 <= m < keys_prev.len() && keys_prev[m] == k;
                        assert(keys[m] == k);
                    } else if k == key {
                        assert(model_before.lookup(key) is Found);
                        assert(keys[keys.len() - 1] == key);
                    } else {
                        assert(model_before.lookup(k) is Found);
                    }
                }
            }
            i = i + 1;
        }
        proof {
            assert forall|key: K| #[trigger] self.model().lookup(key) is NotFound by {
                if self.model().lookup(key) is Found {
                    assert(active_keys@.subrange(i as int, active_keys@.len() as int).len() == 0);
                }
            }
            assert forall|key: K| #[trigger] keys.contains(key) <==> original.lookup(key) is Found by {
            }
            assert(sounding_keys(original, keys));
            assert(original == old(self).model() && synth0 == old(self).synth());
            assert(sounding_keys(old(self).model(), keys));
            assert(attrs.len() == keys.len());
            assert(self.calls() == old(self).calls() + stop_calls(old(self).model(), keys, attrs));
            if original.sounds_nothing() {
                assert(keys.len() == 0) by {
                    if keys.len() > 0 {
                        assert(keys.contains(keys[0]));
                    }
                }
            }
        }
    }

    /// Stops the current [`JitTuner`], stopping every sounding note (see
    /// [`JitTuner::stop_all_notes`]), and yields the consumed [`TunableSynth`] for future reuse: the
    /// synthesizer as the last note-off left it, or unchanged where no note sounds.
    pub fn stop(self) -> (r: S)
        requires
            self.wf(),
        ensures
            self.model().sounds_nothing() ==> r == self.synth(),
            exists|keys: Seq<K>, attrs: Seq<S::NoteAttr>|
                #![trigger sounding_keys(self.model(), keys), attrs.len()]
                {
                    &&& sounding_keys(self.model(), keys)
                    &&& attrs.len() == keys.len()
                    &&& forall|i: int|
                        0 <= i < keys.len() ==> call_ensures(
                            S::NoteAttr::default,
                            (),
                            #[trigger] attrs[i],
                        )
                    &&& keys.len() > 0 ==> exists|first: &mut S, res: S::Result|
                        #[trigger] call_ensures(
                            S::note_off,
                            (
                                first,
                                self.model().lookup(keys[0])->channel,
                                self.model().lookup(keys[0])->found_note,
                                attrs[0],
                            ),
                            res,
                        ) && *first == self.synth()
                    &&& keys.len() > 0 ==> exists|last: &mut S, res: S::Result|
                        #[trigger] call_ensures(
                            S::note_off,
                            (
                                last,
                                self.model().lookup(keys.last())->channel,
                                self.model().lookup(keys.last())->found_note,
                                attrs.last(),
                            ),
                            res,
                        ) && *final(last) == r
                },
    {
        let mut tuner = self;
        tuner.stop_all_notes();
        tuner.synth
    }
}

} // verus!
