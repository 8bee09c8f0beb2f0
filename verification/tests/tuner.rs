use tune::key::PianoKey;
use tune::note::Note;
use tune::tuner::AccessKeyResult;
use tune::tuner::ChannelTuner;
use tune::tuner::GroupBy;
use tune::tuner::JitPool;
use tune::tuner::JitTuningModel;
use tune::tuner::PoolingMode;
use tune::tuner::RegisterKeyResult;

#[test]
fn jit_pooling_mode_block() {
    let mut pool = JitPool::new(PoolingMode::Block, (0..3).collect());

    assert_eq!(pool.key_pressed("keyA", "locA"), Some((0, None)));
    assert_eq!(pool.key_pressed("keyB", "locB"), Some((1, None)));
    assert_eq!(pool.key_pressed("keyC", "locC"), Some((2, None)));
    assert_eq!(pool.key_pressed("keyD", "locD"), None);

    assert_eq!(pool.find_key(&"keyA"), Some((0, "locA")));
    assert_eq!(pool.find_key(&"keyB"), Some((1, "locB")));
    assert_eq!(pool.find_key(&"keyC"), Some((2, "locC")));
    assert_eq!(pool.find_key(&"keyD"), None);

    assert_eq!(pool.key_released(&"keyB"), Some((1, "locB")));
    assert_eq!(pool.key_pressed("keyD", "locD"), Some((1, None)));
    assert_eq!(pool.key_pressed("keyE", "locE"), None);

    assert_eq!(pool.find_key(&"keyA"), Some((0, "locA")));
    assert_eq!(pool.find_key(&"keyB"), None);
    assert_eq!(pool.find_key(&"keyC"), Some((2, "locC")));
    assert_eq!(pool.find_key(&"keyD"), Some((1, "locD")));
    assert_eq!(pool.find_key(&"keyE"), None);

    assert_eq!(pool.key_released(&"keyA"), Some((0, "locA")));
    assert_eq!(pool.key_released(&"keyB"), None);
    assert_eq!(pool.key_released(&"keyC"), Some((2, "locC")));
    assert_eq!(pool.key_released(&"keyD"), Some((1, "locD")));
    assert_eq!(pool.key_released(&"keyE"), None);

    assert_eq!(pool.find_key(&"keyA"), None);
    assert_eq!(pool.find_key(&"keyB"), None);
    assert_eq!(pool.find_key(&"keyC"), None);
    assert_eq!(pool.find_key(&"keyD"), None);
    assert_eq!(pool.find_key(&"keyE"), None);
}

#[test]
fn jit_pooling_mode_stop() {
    let mut pool = JitPool::new(PoolingMode::Stop, (0..3).collect());

    assert_eq!(pool.key_pressed("keyA", "locA"), Some((0, None)));
    assert_eq!(pool.key_pressed("keyB", "locB"), Some((1, None)));
    assert_eq!(pool.key_pressed("keyC", "locC"), Some((2, None)));
    assert_eq!(
        pool.key_pressed("keyD", "locD"),
        Some((0, Some(("keyA", "locA"))))
    );

    assert_eq!(pool.find_key(&"keyA"), None);
    assert_eq!(pool.find_key(&"keyB"), Some((1, "locB")));
    assert_eq!(pool.find_key(&"keyC"), Some((2, "locC")));
    assert_eq!(pool.find_key(&"keyD"), Some((0, "locD")));

    assert_eq!(pool.key_released(&"keyB"), Some((1, "locB")));
    assert_eq!(pool.key_pressed("keyD", "locD"), Some((1, None)));
    assert_eq!(
        pool.key_pressed("keyE", "locE"),
        Some((2, Some(("keyC", "locC"))))
    );

    assert_eq!(pool.find_key(&"keyA"), None);
    assert_eq!(pool.find_key(&"keyB"), None);
    assert_eq!(pool.find_key(&"keyC"), None);
    assert_eq!(pool.find_key(&"keyD"), Some((1, "locD")));
    assert_eq!(pool.find_key(&"keyE"), Some((2, "locE")));

    assert_eq!(pool.key_released(&"keyA"), None);
    assert_eq!(pool.key_released(&"keyB"), None);
    assert_eq!(pool.key_released(&"keyC"), None);
    assert_eq!(pool.key_released(&"keyD"), Some((1, "locD")));
    assert_eq!(pool.key_released(&"keyE"), Some((2, "locE")));

    assert_eq!(pool.find_key(&"keyA"), None);
    assert_eq!(pool.find_key(&"keyB"), None);
    assert_eq!(pool.find_key(&"keyC"), None);
    assert_eq!(pool.find_key(&"keyD"), None);
    assert_eq!(pool.find_key(&"keyE"), None);
}

#[test]
fn jit_pooling_mode_ignore() {
    let mut pool = JitPool::new(PoolingMode::Ignore, (0..3).collect());

    assert_eq!(pool.key_pressed("keyA", "locA"), Some((0, None)));
    assert_eq!(pool.key_pressed("keyB", "locB"), Some((1, None)));
    assert_eq!(pool.key_pressed("keyC", "locC"), Some((2, None)));
    assert_eq!(pool.key_pressed("keyD", "locD"), Some((0, None)));

    assert_eq!(pool.find_key(&"keyA"), Some((0, "locA")));
    assert_eq!(pool.find_key(&"keyB"), Some((1, "locB")));
    assert_eq!(pool.find_key(&"keyC"), Some((2, "locC")));
    assert_eq!(pool.find_key(&"keyD"), Some((0, "locD")));

    assert_eq!(pool.key_released(&"keyB"), Some((1, "locB")));
    assert_eq!(pool.key_pressed("keyD", "locD"), Some((1, None)));
    assert_eq!(pool.key_pressed("keyE", "locE"), Some((2, None)));

    assert_eq!(pool.find_key(&"keyA"), Some((0, "locA")));
    assert_eq!(pool.find_key(&"keyB"), None);
    assert_eq!(pool.find_key(&"keyC"), Some((2, "locC")));
    assert_eq!(pool.find_key(&"keyD"), Some((1, "locD")));
    assert_eq!(pool.find_key(&"keyE"), Some((2, "locE")));

    assert_eq!(pool.key_released(&"keyA"), Some((0, "locA")));
    assert_eq!(pool.key_released(&"keyB"), None);
    assert_eq!(pool.key_released(&"keyC"), Some((2, "locC")));
    assert_eq!(pool.key_released(&"keyD"), Some((1, "locD")));
    assert_eq!(pool.key_released(&"keyE"), Some((2, "locE")));

    assert_eq!(pool.find_key(&"keyA"), None);
    assert_eq!(pool.find_key(&"keyB"), None);
    assert_eq!(pool.find_key(&"keyC"), None);
    assert_eq!(pool.find_key(&"keyD"), None);
    assert_eq!(pool.find_key(&"keyE"), None);
}

#[test]
fn jit_pool_active_keys() {
    let mut pool = JitPool::new(PoolingMode::Stop, (0..2).collect());
    assert_eq!(pool.key_pressed("keyA", "locA"), Some((0, None)));
    assert_eq!(pool.key_pressed("keyB", "locB"), Some((1, None)));
    let mut keys = pool.active_keys();
    keys.sort();
    assert_eq!(keys, ["keyA", "keyB"]);
    assert_eq!(pool.key_released(&"keyA"), Some((0, "locA")));
    assert_eq!(pool.active_keys(), ["keyB"]);
    // The freed channel is queued behind the channels that are still free
    assert_eq!(pool.key_pressed("keyC", "locC"), Some((0, None)));
}

#[test]
fn jit_tuning_model_groups_by_note_letter() {
    let mut model = JitTuningModel::new(2, GroupBy::NoteLetter, PoolingMode::Block);
    let c4 = Note::from_midi_number(60);
    let c5 = Note::from_midi_number(72);
    let d4 = Note::from_midi_number(62);

    assert_eq!(
        model.register_key(PianoKey::from_midi_number(1), c4),
        RegisterKeyResult::Accepted { channel: 0, stopped_note: None, started_note: c4 }
    );
    // Same letter: needs the next channel of the letter's pool
    assert_eq!(
        model.register_key(PianoKey::from_midi_number(2), c5),
        RegisterKeyResult::Accepted { channel: 1, stopped_note: None, started_note: c5 }
    );
    // Another letter has a pool of its own
    assert_eq!(
        model.register_key(PianoKey::from_midi_number(3), d4),
        RegisterKeyResult::Accepted { channel: 0, stopped_note: None, started_note: d4 }
    );
    // The pool of C is exhausted
    assert_eq!(model.register_key(PianoKey::from_midi_number(4), c4), RegisterKeyResult::Rejected);

    assert_eq!(
        model.access_key(PianoKey::from_midi_number(2)),
        AccessKeyResult::Found { channel: 1, found_note: c5 }
    );
    assert_eq!(model.access_key(PianoKey::from_midi_number(4)), AccessKeyResult::NotFound);
    let mut active: Vec<i32> = model.active_keys().iter().map(|key| key.midi_number()).collect();
    active.sort();
    assert_eq!(active, [1, 2, 3]);

    assert_eq!(
        model.deregister_key(PianoKey::from_midi_number(1)),
        AccessKeyResult::Found { channel: 0, found_note: c4 }
    );
    assert_eq!(model.deregister_key(PianoKey::from_midi_number(1)), AccessKeyResult::NotFound);
    assert_eq!(
        model.register_key(PianoKey::from_midi_number(4), c4),
        RegisterKeyResult::Accepted { channel: 0, stopped_note: None, started_note: c4 }
    );
}

#[test]
fn jit_tuning_model_stops_oldest_key() {
    let mut model = JitTuningModel::new(1, GroupBy::Channel, PoolingMode::Stop);
    let c4 = Note::from_midi_number(60);
    let e4 = Note::from_midi_number(64);
    model.register_key(PianoKey::from_midi_number(1), c4);
    assert_eq!(
        model.register_key(PianoKey::from_midi_number(2), e4),
        RegisterKeyResult::Accepted { channel: 0, stopped_note: Some(c4), started_note: e4 }
    );
    assert_eq!(model.access_key(PianoKey::from_midi_number(1)), AccessKeyResult::NotFound);
    assert_eq!(
        model.access_key(PianoKey::from_midi_number(2)),
        AccessKeyResult::Found { channel: 0, found_note: e4 }
    );
}

#[test]
fn group_by_groups() {
    let note = Note::from_midi_number(62);
    assert_eq!(GroupBy::Note.group(note), 62);
    assert_eq!(GroupBy::NoteLetter.group(note), 2);
    assert_eq!(GroupBy::NoteLetter.group(Note::from_midi_number(-10)), 2);
    assert_eq!(GroupBy::Channel.group(note), 0);
}

#[test]
fn channel_tuner_distributes_notes() {
    let c4 = Note::from_midi_number(60);
    let d4 = Note::from_midi_number(62);
    let keys: Vec<(PianoKey, Note)> = vec![
        (PianoKey::from_midi_number(10), c4),
        (PianoKey::from_midi_number(11), c4),
        (PianoKey::from_midi_number(12), d4),
        (PianoKey::from_midi_number(13), c4),
        (PianoKey::from_midi_number(14), d4),
    ];
    let mut tuner = ChannelTuner::new();
    assert_eq!(tuner.num_channels(), 0);
    let channels = tuner.apply_full_keyboard_tuning(&keys);
    assert_eq!(channels, vec![vec![0, 2], vec![1, 4], vec![3]]);
    assert_eq!(tuner.num_channels(), 3);
    assert_eq!(tuner.get_channel_and_note_for_key(PianoKey::from_midi_number(13)), Some((2, c4)));
    assert_eq!(tuner.get_channel_and_note_for_key(PianoKey::from_midi_number(14)), Some((1, d4)));
    assert_eq!(tuner.get_channel_and_note_for_key(PianoKey::from_midi_number(15)), None);

    assert!(tuner.apply_full_keyboard_tuning(&[]).is_empty());
    assert_eq!(tuner.num_channels(), 0);
    assert_eq!(tuner.get_channel_and_note_for_key(PianoKey::from_midi_number(10)), None);
}

/// The pitches in cents that a channel tunes, indexed by MIDI note, 0 where the channel tunes no
/// note: 16-EDO rooted at D4 (key `k` at `6200 + (k - 62) * 75` cents) over the keys 0..128.
fn channel_pitches(tuner: &ChannelTuner<PianoKey>, channel: usize) -> Vec<i32> {
    let mut pitches = vec![0; 128];
    for k in 0..128 {
        if let Some((c, note)) = tuner.get_channel_and_note_for_key(PianoKey::from_midi_number(k)) {
            if c == channel {
                pitches[note.midi_number() as usize] = 6200 + (k - 62) * 75;
            }
        }
    }
    pitches
}

#[test]
fn apply_full_keyboard_tuning() {
    // The nearest note of each pitch, in the library's integer form (halfway rounds down).
    let keys_and_notes: Vec<(PianoKey, Note)> = (0..128)
        .map(|k| {
            let cents = 6200 + (k - 62) * 75;
            (PianoKey::from_midi_number(k), Note::from_midi_number((cents - 50 + 99).div_euclid(100)))
        })
        .collect();

    let mut tuner = ChannelTuner::new();
    let tunings = tuner.apply_full_keyboard_tuning(&keys_and_notes);

    assert_eq!(tunings.len(), 2);

    assert_eq!(
        channel_pitches(&tuner, 0),
        [
            0, 0, 0, 0, 0, 0, 0, 0, 0, 0, 0, 0, 0, 0, 0, 1550, 1625, 1700, 1775, 1925, 2000, 2075,
            2225, 2300, 2375, 2525, 2600, 2675, 2825, 2900, 2975, 3125, 3200, 3275, 3425, 3500, 3575,
            3725, 3800, 3875, 4025, 4100, 4175, 4325, 4400, 4475, 4625, 4700, 4775, 4925, 5000, 5075,
            5225, 5300, 5375, 5525, 5600, 5675, 5825, 5900, 5975, 6125, 6200, 6275, 6425, 6500, 6575,
            6725, 6800, 6875, 7025, 7100, 7175, 7325, 7400, 7475, 7625, 7700, 7775, 7925, 8000, 8075,
            8225, 8300, 8375, 8525, 8600, 8675, 8825, 8900, 8975, 9125, 9200, 9275, 9425, 9500, 9575,
            9725, 9800, 9875, 10025, 10100, 10175, 10325, 10400, 10475, 10625, 10700, 10775, 10925,
            11000, 11075, 0, 0, 0, 0, 0, 0, 0, 0, 0, 0, 0, 0, 0, 0, 0, 0,
        ]
    );
    assert_eq!(
        channel_pitches(&tuner, 1),
        [
            0, 0, 0, 0, 0, 0, 0, 0, 0, 0, 0, 0, 0, 0, 0, 0, 0, 0, 1850, 0, 0, 2150, 0, 0, 2450, 0, 0,
            2750, 0, 0, 3050, 0, 0, 3350, 0, 0, 3650, 0, 0, 3950, 0, 0, 4250, 0, 0, 4550, 0, 0, 4850,
            0, 0, 5150, 0, 0, 5450, 0, 0, 5750, 0, 0, 6050, 0, 0, 6350, 0, 0, 6650, 0, 0, 6950, 0, 0,
            7250, 0, 0, 7550, 0, 0, 7850, 0, 0, 8150, 0, 0, 8450, 0, 0, 8750, 0, 0, 9050, 0, 0, 9350,
            0, 0, 9650, 0, 0, 9950, 0, 0, 10250, 0, 0, 10550, 0, 0, 10850, 0, 0, 0, 0, 0, 0, 0, 0, 0,
            0, 0, 0, 0, 0, 0, 0, 0, 0, 0,
        ]
    );
}

#[test]
fn jit_tuning_model_access_then_deregister() {
    let mut model = JitTuningModel::new(2, GroupBy::Channel, PoolingMode::Stop);
    let e4 = Note::from_midi_number(64);
    let key = PianoKey::from_midi_number(7);
    // An unregistered key is not found, and deregistering it changes nothing.
    assert_eq!(model.deregister_key(key), AccessKeyResult::NotFound);
    model.register_key(key, e4);
    // Looking a key up leaves the model as it is: a deregistration right after finds the same.
    assert_eq!(model.access_key(key), AccessKeyResult::Found { channel: 0, found_note: e4 });
    assert_eq!(model.access_key(key), AccessKeyResult::Found { channel: 0, found_note: e4 });
    assert_eq!(model.deregister_key(key), AccessKeyResult::Found { channel: 0, found_note: e4 });
    assert_eq!(model.access_key(key), AccessKeyResult::NotFound);
    assert_eq!(model.deregister_key(key), AccessKeyResult::NotFound);
}

#[test]
fn jit_tuning_model_keeps_key_while_others_come_and_go() {
    let mut model = JitTuningModel::new(3, GroupBy::Channel, PoolingMode::Stop);
    let c4 = Note::from_midi_number(60);
    let e4 = Note::from_midi_number(64);
    let g4 = Note::from_midi_number(67);
    let found = AccessKeyResult::Found { channel: 0, found_note: c4 };
    model.register_key(PianoKey::from_midi_number(1), c4);
    assert_eq!(model.access_key(PianoKey::from_midi_number(1)), found);
    model.register_key(PianoKey::from_midi_number(2), e4);
    assert_eq!(model.access_key(PianoKey::from_midi_number(1)), found);
    model.deregister_key(PianoKey::from_midi_number(2));
    assert_eq!(model.access_key(PianoKey::from_midi_number(1)), found);
    model.register_key(PianoKey::from_midi_number(3), g4);
    model.register_key(PianoKey::from_midi_number(4), e4);
    assert_eq!(model.access_key(PianoKey::from_midi_number(1)), found);
    // The pool is full: the next registration stops the oldest key and reports its channel and note
    assert_eq!(
        model.register_key(PianoKey::from_midi_number(5), g4),
        RegisterKeyResult::Accepted { channel: 0, stopped_note: Some(c4), started_note: g4 }
    );
    assert_eq!(model.access_key(PianoKey::from_midi_number(1)), AccessKeyResult::NotFound);
    assert_eq!(model.deregister_key(PianoKey::from_midi_number(1)), AccessKeyResult::NotFound);
}
