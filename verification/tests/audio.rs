use mediatools::paths::{SourceFile, WalkError};
use mediatools::transcode_audio::{
    bitrate_seems_low, check_codec, process_dir, run, should_prefer_fdk, transcode_file,
    validate_params, AudioPlan, CodecCheck,
};

fn parts(list: &[&str]) -> Vec<String> {
    list.iter().map(|s| s.to_string()).collect()
}

fn file(list: &[&str]) -> SourceFile {
    SourceFile { path: list.join("/"), parts: parts(list) }
}

#[test]
fn mp3_in_wav_is_rejected() {
    assert!(!validate_params("192k", "mp3", "wav"));
    let plan = run(
        &parts(&["in"]),
        "flac",
        &parts(&["out"]),
        &vec![file(&["in", "a.flac"])],
        "192k",
        "mp3",
        "wav",
        false,
        true,
    );
    match plan {
        Ok(AudioPlan::Rejected(CodecCheck::Mp3Container)) => {}
        _ => panic!("a rejection was expected"),
    }
}

#[test]
fn opus_in_ogg_is_accepted() {
    assert!(validate_params("96k", "opus", "ogg"));
}

#[test]
fn codec_and_container_pairs() {
    assert!(matches!(check_codec("aac", "m4a"), CodecCheck::Accepted));
    assert!(matches!(check_codec("aac", "mkv"), CodecCheck::Accepted));
    assert!(matches!(check_codec("libfdk_aac", "m4a"), CodecCheck::Accepted));
    assert!(matches!(check_codec("libfdk_aac", "mp3"), CodecCheck::AacContainer));
    assert!(matches!(check_codec("mp3", "mp3"), CodecCheck::Accepted));
    assert!(matches!(check_codec("mp3", "ogg"), CodecCheck::Mp3Container));
    assert!(matches!(check_codec("opus", "mkv"), CodecCheck::OpusContainer));
    assert!(matches!(check_codec("flac", "flac"), CodecCheck::UnsupportedCodec));
    assert!(!validate_params("1", "vorbis", "ogg"));
}

#[test]
fn plain_aac_gets_a_hint() {
    assert!(should_prefer_fdk("aac", "m4a"));
    assert!(!should_prefer_fdk("aac", "mp3"));
    assert!(!should_prefer_fdk("libfdk_aac", "m4a"));
}

#[test]
fn low_bitrates_are_noticed() {
    assert!(bitrate_seems_low("128"));
    assert!(bitrate_seems_low("999"));
    assert!(!bitrate_seems_low("1000"));
    assert!(!bitrate_seems_low("+1000"));
    assert!(!bitrate_seems_low("128k"));
    assert!(bitrate_seems_low("abc"));
    assert!(bitrate_seems_low(""));
    assert!(bitrate_seems_low("128K"));
    assert!(bitrate_seems_low("99999999999999999999999999"));
}

#[test]
fn transcode_file_arguments() {
    let job = transcode_file(
        &file(&["in", "a.flac"]),
        &parts(&["out", "a.flac"]),
        "192k",
        "mp3",
        "mp3",
        true,
        false,
    );
    assert_eq!(job.output_parts, parts(&["out", "a.mp3"]));
    assert_eq!(job.output, "out/a.mp3");
    assert!(!job.invocation.quiet);
    assert_eq!(
        job.invocation.args,
        parts(&[
            "-y", "-i", "in/a.flac", "-acodec", "mp3", "-ab", "192k", "-map_metadata", "0",
            "-id3v2_version", "3", "out/a.mp3"
        ])
    );
}

#[test]
fn aac_drops_the_video_stream() {
    let job = transcode_file(
        &file(&["in", "a.flac"]),
        &parts(&["out", "a.flac"]),
        "256k",
        "libfdk_aac",
        "m4a",
        false,
        true,
    );
    assert!(job.invocation.quiet);
    assert_eq!(
        job.invocation.args,
        parts(&[
            "-n", "-i", "in/a.flac", "-acodec", "libfdk_aac", "-ab", "256k", "-map_metadata",
            "0", "-id3v2_version", "3", "-vn", "out/a.m4a"
        ])
    );
}

#[test]
fn tree_is_mirrored_and_filtered() {
    let files = vec![
        file(&["in", "a.flac"]),
        file(&["in", "cover.jpg"]),
        file(&["in", "cd1", "deep", "b.flac"]),
        file(&["in", "cd1", "c.FLAC"]),
    ];
    let jobs = match process_dir(
        &parts(&["in"]),
        &parts(&["out", "x"]),
        &files,
        "flac",
        "128k",
        "opus",
        "ogg",
        false,
        false,
    ) {
        Ok(jobs) => jobs,
        Err(_) => panic!("jobs were expected"),
    };
    assert_eq!(jobs.len(), 2);
    assert_eq!(jobs[0].output_parts, parts(&["out", "x", "a.ogg"]));
    assert_eq!(jobs[0].invocation.args[2], "in/a.flac");
    assert_eq!(jobs[1].output_parts, parts(&["out", "x", "cd1", "deep", "b.ogg"]));
    assert_eq!(jobs[1].output, "out/x/cd1/deep/b.ogg");
    assert_eq!(jobs[1].invocation.args[2], "in/cd1/deep/b.flac");
    assert_eq!(jobs[1].invocation.args.last().unwrap(), "out/x/cd1/deep/b.ogg");
}

#[test]
fn file_outside_the_root_stops_the_plan() {
    let files = vec![file(&["in", "a.flac"]), file(&["elsewhere", "b.flac"])];
    let r = process_dir(
        &parts(&["in"]),
        &parts(&["out"]),
        &files,
        "flac",
        "128k",
        "opus",
        "ogg",
        false,
        false,
    );
    assert!(matches!(r, Err(WalkError::OutsideRoot { index: 1 })));
}

#[test]
fn accepted_parameters_give_jobs() {
    let files = vec![file(&["in", "a.wav"]), file(&["in", "b.wav"])];
    match run(&parts(&["in"]), "wav", &parts(&["out"]), &files, "96k", "opus", "ogg", true, true) {
        Ok(AudioPlan::Jobs(jobs)) => {
            assert_eq!(jobs.len(), 2);
            assert_eq!(jobs[1].output, "out/b.ogg");
        }
        _ => panic!("jobs were expected"),
    }
}
