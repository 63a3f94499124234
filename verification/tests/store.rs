use zwave_editor_lib::audio::decode::DecodedAudio;
use zwave_editor_lib::audio::edit::{crop_range, delete_range};
use zwave_editor_lib::audio::{ClipStore, Clipboard, MAX_HISTORY};

fn tone(frames: usize) -> DecodedAudio<f32> {
    let samples: Vec<f32> = (0..frames).map(|i| (i % 7) as f32 / 7.0).collect();
    DecodedAudio {
        channels: vec![samples.clone(), samples],
        sample_rate: 1000,
        codec: "pcm_s16le".into(),
        bits_per_sample: Some(16),
    }
}

#[test]
fn ids_are_handed_out_in_order_starting_at_one() {
    let mut store = ClipStore::default();
    assert_eq!(store.insert(tone(10), "a.wav".into(), "/a.wav".into(), 40), 1);
    assert_eq!(store.insert(tone(10), "b.wav".into(), "/b.wav".into(), 40), 2);
    let (name, path, size, version, can_undo) = store
        .with(2, |e| (e.name.clone(), e.path.clone(), e.file_size_bytes, e.version, e.can_undo()))
        .unwrap();
    assert_eq!((name.as_str(), path.as_str(), size, version, can_undo), ("b.wav", "/b.wav", 40, 0, false));
}

#[test]
fn store_edit_then_undo_restores_the_audio() {
    let mut store = ClipStore::default();
    let id = store.insert(tone(1000), "edit-source.wav".into(), String::new(), 0);

    let after_delete = store
        .edit(id, |audio| delete_range(audio, 250, 750), |entry| entry.audio.frame_count())
        .expect("delete should apply");
    assert_eq!(after_delete, 500);
    assert!(store.with(id, |entry| entry.can_undo()).unwrap());
    assert_eq!(store.with(id, |entry| entry.version).unwrap(), 1);

    let after_crop = store
        .edit(id, |audio| crop_range(audio, 0, 200), |entry| entry.audio.frame_count())
        .expect("crop should apply");
    assert_eq!(after_crop, 200);

    let after_undo = store.undo(id, |entry| entry.audio.frame_count()).expect("undo should apply");
    assert_eq!(after_undo, 500);
    assert_eq!(store.with(id, |entry| entry.version).unwrap(), 3);

    store.undo(id, |_| ()).unwrap();
    let original = tone(1000);
    assert_eq!(store.audio(id).unwrap().channels, original.channels);
    assert!(!store.with(id, |entry| entry.can_undo()).unwrap());
}

#[test]
fn store_undo_without_history_fails_cleanly() {
    let mut store = ClipStore::default();
    let id = store.insert(tone(100), "no-history.wav".into(), String::new(), 0);
    assert_eq!(store.undo(id, |_| ()).err().unwrap(), "there is nothing to undo");
    assert_eq!(store.with(id, |entry| entry.version).unwrap(), 0);
}

#[test]
fn store_failed_edit_leaves_the_clip_untouched() {
    let mut store = ClipStore::default();
    let id = store.insert(tone(1000), "untouched.wav".into(), String::new(), 0);

    let result = store.edit(id, |audio| delete_range(audio, 0, 1000), |entry| entry.audio.frame_count());
    assert!(result.is_err());

    let (frames, version, can_undo) =
        store.with(id, |entry| (entry.audio.frame_count(), entry.version, entry.can_undo())).unwrap();
    assert_eq!(frames, 1000);
    assert_eq!(version, 0, "a rejected edit must not bump the version");
    assert!(!can_undo, "a rejected edit must not push history");
}

#[test]
fn operations_on_a_closed_clip_name_it() {
    let mut store: ClipStore<f32> = ClipStore::default();
    let id = store.insert(tone(10), "gone.wav".into(), String::new(), 0);
    store.remove(id);
    assert!(store.audio(id).is_none());
    assert_eq!(store.with(id, |_| ()).err().unwrap(), "clip 1 is not open");
    assert_eq!(store.undo(id, |_| ()).err().unwrap(), "clip 1 is not open");
    assert_eq!(
        store.edit(17, |audio| crop_range(audio, 0, 1), |_| ()).err().unwrap(),
        "clip 17 is not open"
    );
    assert_eq!(store.insert(tone(10), "next.wav".into(), String::new(), 0), 2);
}

#[test]
fn history_is_capped_at_twelve_steps() {
    let mut store = ClipStore::default();
    let id = store.insert(tone(100), "long.wav".into(), String::new(), 0);
    for step in 0..(MAX_HISTORY + 3) {
        store.edit(id, |audio| delete_range(audio, 0, 1), |_| ()).unwrap();
        assert_eq!(store.with(id, |e| e.history.len()).unwrap(), (step + 1).min(MAX_HISTORY));
    }
    for _ in 0..MAX_HISTORY {
        store.undo(id, |_| ()).unwrap();
    }
    // The three oldest versions fell off the stack.
    assert_eq!(store.with(id, |e| e.audio.frame_count()).unwrap(), 97);
    assert!(store.undo(id, |_| ()).is_err());
}

#[test]
fn the_clipboard_starts_empty() {
    let board: Clipboard<f32> = Clipboard::default();
    assert!(board.0.is_none());
}
