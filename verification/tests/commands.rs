use zwave_editor_lib::commands::{
    file_name, pick_path, probe_path, unique_path, InputDeviceInfo, StartupFiles,
};

#[test]
fn file_name_is_the_last_component() {
    assert_eq!(file_name("/music/take-one.wav"), "take-one.wav");
    assert_eq!(file_name("relative/dir/b.flac"), "b.flac");
    assert_eq!(file_name("/"), "untitled");
    assert_eq!(file_name("/music/.."), "untitled");
}

#[test]
fn a_free_path_is_kept() {
    let free = "/zwave-editor-no-such-dir/mix.wav";
    assert_eq!(unique_path(free.to_string(), |p| std::path::Path::new(p).exists()).unwrap(), free);
}

#[test]
fn a_taken_path_gets_a_number() {
    // The temporary directory always exists; its numbered alternative does not.
    assert_eq!(
        unique_path("/tmp".to_string(), |p| std::path::Path::new(p).exists()).unwrap(),
        "/tmp-2.wav"
    );
}

#[test]
fn the_first_free_number_is_taken() {
    let taken = ["/out/mix.wav", "/out/mix-2.wav", "/out/mix-3.wav", "/out/mix-5.wav"];
    let asked = std::cell::RefCell::new(Vec::new());
    let path = unique_path("/out/mix.wav".to_string(), |p| {
        asked.borrow_mut().push(p.to_string());
        taken.contains(&p)
    });
    assert_eq!(path.unwrap(), "/out/mix-4.wav");
    assert_eq!(
        asked.into_inner(),
        vec!["/out/mix.wav", "/out/mix-2.wav", "/out/mix-3.wav", "/out/mix-4.wav"]
    );
}

#[test]
fn no_path_is_returned_when_every_name_is_taken() {
    let count = std::cell::Cell::new(0);
    let path = unique_path("/out/mix.wav".to_string(), |_| {
        count.set(count.get() + 1);
        true
    });
    assert_eq!(path, None);
    assert_eq!(count.get(), 999);
}

#[test]
fn probe_and_pick_follow_the_answers() {
    assert_eq!(probe_path(&"/out/mix.wav".to_string(), 0), "/out/mix.wav");
    assert_eq!(probe_path(&"/out/mix.wav".to_string(), 998), "/out/mix-999.wav");
    assert_eq!(pick_path(&"/out/mix.wav".to_string(), &vec![false]).unwrap(), "/out/mix.wav");
    assert_eq!(pick_path(&"/out/mix.wav".to_string(), &vec![true, true, false]).unwrap(), "/out/mix-3.wav");
    assert_eq!(pick_path(&"/out/mix.wav".to_string(), &vec![true; 999]), None);
}

#[test]
fn startup_files_keep_existing_files_and_skip_options() {
    let args = vec![
        "--verbose".to_string(),
        "a.wav".to_string(),
        "-x.wav".to_string(),
        "missing.wav".to_string(),
        "c.wav".to_string(),
    ];
    let files = StartupFiles::from_checked_args(args, &vec![true, true, true, false, true]);
    assert_eq!(files.0, vec!["a.wav".to_string(), "c.wav".to_string()]);
}

#[test]
fn startup_files_are_handed_out_once() {
    let mut files = StartupFiles(vec!["a.wav".to_string()]);
    assert_eq!(files.take(), vec!["a.wav".to_string()]);
    assert!(files.take().is_empty());
    assert!(StartupFiles::default().take().is_empty());
}

#[test]
fn startup_files_from_args_checks_the_disk() {
    let files = StartupFiles::from_args(
        vec![
            "/etc/passwd".to_string(),
            "-v".to_string(),
            "/tmp".to_string(),
            "/zwave-editor-no-such-file.wav".to_string(),
        ],
        |p| std::path::Path::new(p).is_file(),
    );
    assert_eq!(files.0, vec!["/etc/passwd".to_string()]);
}

#[test]
fn startup_files_ask_about_every_argument_but_options() {
    let asked = std::cell::RefCell::new(Vec::new());
    let files = StartupFiles::from_args(
        vec!["a.wav".to_string(), "--flag".to_string(), "b.wav".to_string()],
        |p| {
            asked.borrow_mut().push(p.to_string());
            p == "b.wav"
        },
    );
    assert_eq!(files.0, vec!["b.wav".to_string()]);
    assert_eq!(asked.into_inner(), vec!["a.wav", "b.wav"]);
}

#[test]
fn input_device_info_holds_rate_and_channels() {
    let info = InputDeviceInfo { sample_rate: 44_100, channels: 1 };
    assert_eq!((info.sample_rate, info.channels), (44_100, 1));
}

#[test]
fn exported_tracks_are_named_after_their_clip() {
    assert_eq!(zwave_editor_lib::commands::track_file_path("/out", "take one.mp3"), "/out/take one.wav");
    assert_eq!(zwave_editor_lib::commands::track_file_path("/out", ""), "/out/track.wav");
}
