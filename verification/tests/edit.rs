use zwave_editor_lib::audio::decode::DecodedAudio;
use zwave_editor_lib::audio::edit::{
    apply_in_range, check_selection, conform_exact, copy_range, crop_range, delete_range, fill_range, paste_range,
    repeat_range, resample_range, reverse_range, spread_channels,
};

fn ramp(frames: usize) -> DecodedAudio<f32> {
    let samples: Vec<f32> = (0..frames).map(|i| i as f32).collect();
    DecodedAudio {
        channels: vec![samples.clone(), samples],
        sample_rate: 1000,
        codec: "test".into(),
        bits_per_sample: None,
    }
}

/// The conversion a paste needs when the clipboard already has the target's
/// rate and channel layout, where it is exact.
fn same_layout(audio: &DecodedAudio<f32>, rate: u32, channels: usize) -> Vec<Vec<f32>> {
    conform_exact(audio, rate, channels).expect("same rate, no fold-down")
}

#[test]
fn delete_closes_the_gap_on_every_channel() {
    let edited = delete_range(&ramp(10), 3, 6).unwrap();
    assert_eq!(edited.frame_count(), 7);
    assert_eq!(edited.channels[0], vec![0.0, 1.0, 2.0, 6.0, 7.0, 8.0, 9.0]);
    assert_eq!(edited.channels[1], edited.channels[0]);
}

#[test]
fn crop_keeps_only_the_selection() {
    let edited = crop_range(&ramp(10), 4, 7).unwrap();
    assert_eq!(edited.frame_count(), 3);
    assert_eq!(edited.channels[0], vec![4.0, 5.0, 6.0]);
}

#[test]
fn an_empty_selection_is_rejected() {
    assert!(delete_range(&ramp(10), 5, 5).is_err());
    assert!(crop_range(&ramp(10), 5, 5).is_err());
}

#[test]
fn deleting_everything_is_refused_rather_than_leaving_an_empty_clip() {
    assert!(delete_range(&ramp(10), 0, 10).is_err());
}

#[test]
fn paste_inserts_or_replaces_on_every_channel() {
    let clip = copy_range(&ramp(10), 7, 9).unwrap();
    assert_eq!(clip.channels[0], vec![7.0, 8.0]);

    let inserted = paste_range(&ramp(5), 2, 2, &clip, same_layout).unwrap();
    assert_eq!(inserted.channels[0], vec![0.0, 1.0, 7.0, 8.0, 2.0, 3.0, 4.0]);
    assert_eq!(inserted.channels[1], inserted.channels[0]);

    let replaced = paste_range(&ramp(5), 1, 4, &clip, same_layout).unwrap();
    assert_eq!(replaced.channels[0], vec![0.0, 7.0, 8.0, 4.0]);
}

#[test]
fn repeat_range_repeats_selection() {
    let audio = ramp(5); // [0, 1, 2, 3, 4]
    let repeated = repeat_range(&audio, 1, 3, 2).unwrap(); // repeat [1, 2] twice
    assert_eq!(repeated.channels[0], vec![0.0, 1.0, 2.0, 1.0, 2.0, 3.0, 4.0]);
}

#[test]
fn repeat_range_rejects_empty_selection() {
    let audio = ramp(5);
    assert!(repeat_range(&audio, 2, 2, 1).is_err());
}

#[test]
fn repeat_range_rejects_zero_count() {
    let audio = ramp(5);
    assert!(repeat_range(&audio, 1, 3, 0).is_err());
}

#[test]
fn fill_range_fills_gap_with_repeated_source() {
    let audio = ramp(10); // [0, 1, 2, 3, 4, 5, 6, 7, 8, 9]
    let filled = fill_range(&audio, 2, 5, 0, 2).unwrap(); // fill [2,5) with [0,2) repeated
    assert_eq!(filled.channels[0], vec![0.0, 1.0, 0.0, 1.0, 0.0, 5.0, 6.0, 7.0, 8.0, 9.0]);
}

#[test]
fn fill_range_rejects_empty_gap() {
    let audio = ramp(5);
    assert!(fill_range(&audio, 2, 2, 0, 2).is_err());
}

#[test]
fn fill_range_rejects_empty_source() {
    let audio = ramp(5);
    assert!(fill_range(&audio, 1, 3, 2, 2).is_err());
}

#[test]
fn edit_errors_carry_their_messages() {
    assert_eq!(delete_range(&ramp(10), 5, 5).err().unwrap(), "nothing is selected");
    assert_eq!(
        delete_range(&ramp(10), 0, 12).err().unwrap(),
        "that would delete the whole clip — remove the track instead"
    );
    assert_eq!(crop_range(&ramp(10), 6, 2).err().unwrap(), "nothing is selected");
    assert_eq!(copy_range(&ramp(10), 6, 6).err().unwrap(), "nothing is selected");
    assert_eq!(reverse_range(&ramp(10), 3, 3).err().unwrap(), "nothing is selected");
    assert_eq!(repeat_range(&ramp(10), 3, 3, 2).err().unwrap(), "nothing is selected");
    assert_eq!(repeat_range(&ramp(10), 1, 3, 0).err().unwrap(), "repeat count must be at least 1");
    assert_eq!(fill_range(&ramp(10), 4, 4, 0, 2).err().unwrap(), "fill range is empty");
    assert_eq!(fill_range(&ramp(10), 1, 4, 2, 1).err().unwrap(), "source range is empty");

    let empty = DecodedAudio::<f32> {
        channels: vec![Vec::new(), Vec::new()],
        sample_rate: 1000,
        codec: "test".into(),
        bits_per_sample: None,
    };
    assert_eq!(paste_range(&ramp(4), 1, 1, &empty, same_layout).err().unwrap(), "the clipboard is empty");
}

#[test]
fn edits_keep_rate_codec_and_depth() {
    let mut audio = ramp(6);
    audio.bits_per_sample = Some(24);
    let edited = delete_range(&audio, 1, 2).unwrap();
    assert_eq!(edited.sample_rate, 1000);
    assert_eq!(edited.codec, "test");
    assert_eq!(edited.bits_per_sample, Some(24));
}

#[test]
fn deleting_a_tail_past_the_end_closes_the_gap_to_the_end() {
    let edited = delete_range(&ramp(10), 7, 10).unwrap();
    assert_eq!(edited.channels[0], vec![0.0, 1.0, 2.0, 3.0, 4.0, 5.0, 6.0]);
}

#[test]
fn crop_clamps_the_selection_to_the_clip() {
    let edited = crop_range(&ramp(5), 3, 50).unwrap();
    assert_eq!(edited.channels[0], vec![3.0, 4.0]);
    let outside = crop_range(&ramp(5), 7, 9).unwrap();
    assert!(outside.channels[0].is_empty());
}

#[test]
fn paste_clamps_the_range_to_the_clip() {
    let clip = copy_range(&ramp(10), 7, 9).unwrap();
    let appended = paste_range(&ramp(3), 8, 2, &clip, same_layout).unwrap();
    assert_eq!(appended.channels[0], vec![0.0, 1.0, 2.0, 7.0, 8.0]);
}

#[test]
fn paste_uses_what_the_conversion_returns() {
    let clip = copy_range(&ramp(10), 7, 9).unwrap();
    let doubled = paste_range(&ramp(3), 1, 1, &clip, |a: &DecodedAudio<f32>, rate, channels| {
        assert_eq!(rate, 1000);
        assert_eq!(channels, 2);
        a.channels.iter().map(|c| c.iter().map(|s| s * 2.0).collect()).collect()
    })
    .unwrap();
    assert_eq!(doubled.channels[0], vec![0.0, 14.0, 16.0, 1.0, 2.0]);
    assert_eq!(doubled.channels[1], doubled.channels[0]);
}

#[test]
fn reverse_plays_the_selection_backwards() {
    let reversed = reverse_range(&ramp(6), 1, 4).unwrap();
    assert_eq!(reversed.channels[0], vec![0.0, 3.0, 2.0, 1.0, 4.0, 5.0]);
    assert_eq!(reversed.channels[1], reversed.channels[0]);
    let tail = reverse_range(&ramp(4), 2, 40).unwrap();
    assert_eq!(tail.channels[0], vec![0.0, 1.0, 3.0, 2.0]);
}

#[test]
fn reversing_twice_restores_the_clip() {
    let audio = ramp(9);
    let twice = reverse_range(&reverse_range(&audio, 2, 7).unwrap(), 2, 7).unwrap();
    assert_eq!(twice.channels, audio.channels);
}

#[test]
fn cutting_then_pasting_back_restores_the_clip() {
    let audio = ramp(8);
    let cut = copy_range(&audio, 2, 5).unwrap();
    let without = delete_range(&audio, 2, 5).unwrap();
    assert_eq!(without.frame_count(), 5);
    let restored = paste_range(&without, 2, 2, &cut, same_layout).unwrap();
    assert_eq!(restored.channels, audio.channels);
}

#[test]
fn repeating_once_changes_nothing() {
    let audio = ramp(6);
    assert_eq!(repeat_range(&audio, 1, 4, 1).unwrap().channels, audio.channels);
}

#[test]
fn repeat_grows_by_the_extra_copies() {
    let repeated = repeat_range(&ramp(6), 1, 3, 4).unwrap();
    assert_eq!(repeated.frame_count(), 6 + 3 * 2);
}

#[test]
fn fill_clamps_both_ranges_to_the_clip() {
    let filled = fill_range(&ramp(6), 3, 60, 1, 3).unwrap();
    assert_eq!(filled.channels[0], vec![0.0, 1.0, 2.0, 1.0, 2.0, 1.0]);
}

#[test]
fn apply_in_range_rewrites_only_the_selection() {
    let inverted = apply_in_range(&ramp(5), 1, 3, |_, s: f32| -s);
    assert_eq!(inverted.channels[0], vec![0.0, -1.0, -2.0, 3.0, 4.0]);
    assert_eq!(inverted.channels[1], inverted.channels[0]);

    let indexed = apply_in_range(&ramp(4), 2, 10, |i, s: f32| s + 10.0 * i as f32);
    assert_eq!(indexed.channels[0], vec![0.0, 1.0, 22.0, 33.0]);
}

#[test]
fn resample_range_replaces_the_selection_with_what_f_computes() {
    // Every other sample of the selection: a speed-up by two.
    let halved = resample_range(&ramp(8), 2, 6, 2, |selection: &Vec<f32>, i| selection[i * 2]);
    assert_eq!(halved.channels[0], vec![0.0, 1.0, 2.0, 4.0, 6.0, 7.0]);

    let stretched = resample_range(&ramp(4), 1, 3, 4, |selection: &Vec<f32>, i| selection[i / 2]);
    assert_eq!(stretched.channels[0], vec![0.0, 1.0, 1.0, 2.0, 2.0, 3.0]);
}

#[test]
fn spread_channels_copies_and_repeats_the_last_channel() {
    let stereo = DecodedAudio::<f32> {
        channels: vec![vec![1.0, 2.0], vec![3.0, 4.0]],
        sample_rate: 1000,
        codec: "test".into(),
        bits_per_sample: None,
    };
    assert_eq!(
        spread_channels(&stereo, 4),
        vec![vec![1.0, 2.0], vec![3.0, 4.0], vec![3.0, 4.0], vec![3.0, 4.0]]
    );
    assert_eq!(spread_channels(&stereo, 1), vec![vec![1.0, 2.0]]);
    assert!(spread_channels(&stereo, 0).is_empty());
}

#[test]
fn exact_conversion_spreads_channels_at_the_same_rate_only() {
    let mono = DecodedAudio::<f32> {
        channels: vec![vec![0.5, 0.25]],
        sample_rate: 1000,
        codec: "test".into(),
        bits_per_sample: None,
    };
    assert_eq!(conform_exact(&mono, 1000, 2), Some(vec![vec![0.5, 0.25], vec![0.5, 0.25]]));
    assert_eq!(conform_exact(&mono, 2000, 2), None);
    assert_eq!(conform_exact(&ramp(3), 1000, 1), None, "folding stereo to mono averages");
    assert_eq!(conform_exact(&ramp(3), 1000, 2).unwrap(), ramp(3).channels);
}

#[test]
fn a_selection_must_hold_a_frame() {
    assert!(check_selection(2, 3).is_ok());
    assert_eq!(check_selection(3, 3).err().unwrap(), "nothing is selected");
    assert_eq!(check_selection(4, 1).err().unwrap(), "nothing is selected");
}
