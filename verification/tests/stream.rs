use zwave_editor_lib::audio::decode::{
    append_interleaved, deinterleave, first_decodable_track, on_packet, DecodeProgress,
    DecodeStep, PacketDecode, PacketRead, PacketStep,
};
use zwave_editor_lib::audio::engine::EngineStatus;
use zwave_editor_lib::audio::export::{interleave, BitDepth, SampleFormat};
use zwave_editor_lib::audio::recording::recorded_clip;

#[test]
fn deinterleave_deals_samples_out_in_turn() {
    let stream = vec![1, 2, 3, 4, 5, 6, 7];
    assert_eq!(deinterleave(&stream, 2), vec![vec![1, 3, 5, 7], vec![2, 4, 6]]);
    assert_eq!(deinterleave(&stream, 3), vec![vec![1, 4, 7], vec![2, 5], vec![3, 6]]);
    assert!(deinterleave(&stream, 0).is_empty());
}

#[test]
fn append_interleaved_extends_each_channel() {
    let mut channels = vec![vec![0.0f32], vec![9.0]];
    append_interleaved(&mut channels, &vec![1.0, 2.0, 3.0, 4.0]);
    assert_eq!(channels, vec![vec![0.0, 1.0, 3.0], vec![9.0, 2.0, 4.0]]);
}

#[test]
fn interleave_lays_frames_out_channel_by_channel() {
    let channels = vec![vec![1, 3, 5], vec![2, 4]];
    assert_eq!(interleave(&channels).unwrap(), vec![1, 2, 3, 4]);
    let empty: Vec<Vec<i16>> = Vec::new();
    assert_eq!(interleave(&empty).err().unwrap(), "there is no audio to write");
    assert_eq!(interleave(&[Vec::<i16>::new(), vec![1]]).err().unwrap(), "there is no audio to write");
}

#[test]
fn interleaving_then_deinterleaving_gives_the_channels_back() {
    let channels = vec![vec![0.5f32, -0.5, 0.25], vec![1.0, 0.0, -1.0], vec![0.1, 0.2, 0.3]];
    let stream = interleave(&channels).unwrap();
    assert_eq!(deinterleave(&stream, 3), channels);
}

#[test]
fn a_recording_splits_into_channels() {
    let clip = recorded_clip(&vec![0.1f32, 0.2, 0.3, 0.4], 2, 48_000).unwrap();
    assert_eq!(clip.channels, vec![vec![0.1, 0.3], vec![0.2, 0.4]]);
    assert_eq!(clip.sample_rate, 48_000);
    assert_eq!(clip.codec, "recorded");
    assert_eq!(clip.bits_per_sample, Some(32));
    assert_eq!(recorded_clip(&Vec::<f32>::new(), 2, 48_000).err().unwrap(), "no audio recorded");
}

#[test]
fn bit_depths_map_to_wav_layouts() {
    assert!(matches!(BitDepth::Int16.wav_spec(), (16, SampleFormat::Int)));
    assert!(matches!(BitDepth::Int24.wav_spec(), (24, SampleFormat::Int)));
    assert!(matches!(BitDepth::Float32.wav_spec(), (32, SampleFormat::Float)));
}

#[test]
fn the_first_track_with_a_codec_is_decoded() {
    assert_eq!(first_decodable_track(&vec![true, false, false]).unwrap(), 1);
    assert_eq!(
        first_decodable_track(&vec![true, true]).err().unwrap(),
        "file contains no decodable audio track"
    );
}

#[test]
fn packets_of_other_tracks_are_skipped_and_errors_end_the_read() {
    assert!(matches!(on_packet(3, PacketRead::Packet { track_id: 3 }), PacketStep::Decode));
    assert!(matches!(on_packet(3, PacketRead::Packet { track_id: 4 }), PacketStep::Skip));
    assert!(matches!(on_packet(3, PacketRead::EndOfStream), PacketStep::Finish));
    assert!(matches!(on_packet(3, PacketRead::ResetRequired), PacketStep::Finish));
    match on_packet(3, PacketRead::Failed("boom".into())) {
        PacketStep::Fail(m) => assert_eq!(m, "error reading audio stream: boom"),
        _ => panic!("a read error must fail the decode"),
    }
}

#[test]
fn decoded_packets_accumulate_into_planar_channels() {
    let mut progress: DecodeProgress<f32> = DecodeProgress::new(None);
    let step = progress.on_decoded(PacketDecode::Decoded {
        rate: 44_100,
        channel_count: 2,
        samples: vec![0.1, 0.2, 0.3, 0.4],
    });
    assert!(matches!(step, DecodeStep::Continue));
    assert!(matches!(progress.on_decoded(PacketDecode::Damaged), DecodeStep::Continue));
    // A later packet with another rate or layout does not change either.
    progress.on_decoded(PacketDecode::Decoded { rate: 8_000, channel_count: 1, samples: vec![0.5, 0.6] });
    assert!(matches!(progress.on_decoded(PacketDecode::EndOfStream), DecodeStep::Finish));
    match progress.on_decoded(PacketDecode::Failed("bad frame".into())) {
        DecodeStep::Fail(m) => assert_eq!(m, "error decoding audio: bad frame"),
        _ => panic!("a decode error must fail the decode"),
    }
    let audio = progress.finish("wav".into(), Some(16)).unwrap();
    assert_eq!(audio.sample_rate, 44_100);
    assert_eq!(audio.channels, vec![vec![0.1, 0.3, 0.5], vec![0.2, 0.4, 0.6]]);
    assert_eq!(audio.codec, "wav");
    assert_eq!(audio.bits_per_sample, Some(16));
}

#[test]
fn the_declared_rate_wins_and_nothing_decoded_is_an_error() {
    let mut progress: DecodeProgress<f32> = DecodeProgress::new(Some(48_000));
    progress.on_decoded(PacketDecode::Decoded { rate: 44_100, channel_count: 1, samples: vec![0.0] });
    assert_eq!(progress.sample_rate, 48_000);

    let nothing: DecodeProgress<f32> = DecodeProgress::new(Some(48_000));
    assert_eq!(nothing.finish("wav".into(), None).err().unwrap(), "file decoded to zero audio frames");
}

#[test]
fn engine_status_starts_not_ready() {
    let status = EngineStatus::default();
    assert!(!status.ready);
    assert!(status.error.is_none());
    assert_eq!(status.sample_rate, 0);
}

#[test]
fn whole_frames_keep_channels_even() {
    let mut channels = vec![vec![0.0f32; 3], vec![1.0; 3], vec![2.0; 3]];
    append_interleaved(&mut channels, &vec![0.1, 0.2, 0.3, 0.4, 0.5, 0.6]);
    assert!(channels.iter().all(|c| c.len() == 5));
}
