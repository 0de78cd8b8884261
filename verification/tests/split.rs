use mediatools::paths::SourceFile;
use mediatools::split_audio::{
    is_one_disc, parse_lines, parse_timestamp, parse_timestamps, plan_tracks, run, split_args,
    timestamp_from_groups, AlbumInfo, ParseError, SplitError, Timestamp,
};

fn parts(list: &[&str]) -> Vec<String> {
    list.iter().map(|s| s.to_string()).collect()
}

fn file(list: &[&str]) -> SourceFile {
    SourceFile { path: list.join("/"), parts: parts(list) }
}

fn stamp(disc: usize, track: usize, title: &str, start: &str) -> Timestamp {
    Timestamp { disc, track, title: title.to_string(), start_time: start.to_string() }
}

fn no_info() -> AlbumInfo {
    AlbumInfo { artist: None, album: None, date: None }
}

#[test]
fn parses_a_short_time() {
    let t = match parse_timestamp("1 1 Break Out - Version 1 0:00") {
        Ok(t) => t,
        Err(_) => panic!("an entry was expected"),
    };
    assert_eq!(t.disc, 1);
    assert_eq!(t.track, 1);
    assert_eq!(t.title, "Break Out - Version 1");
    assert_eq!(t.start_time, "0:00");
}

#[test]
fn parses_a_long_time() {
    let t = match parse_timestamp("4 12 Prove It All Night - Version 1 2:41:38") {
        Ok(t) => t,
        Err(_) => panic!("an entry was expected"),
    };
    assert_eq!(t.disc, 4);
    assert_eq!(t.track, 12);
    assert_eq!(t.title, "Prove It All Night - Version 1");
    assert_eq!(t.start_time, "2:41:38");
}

#[test]
fn a_line_of_another_shape_is_refused_with_its_text() {
    match parse_timestamp("no entry here") {
        Err(ParseError::InvalidLine(l)) => assert_eq!(l, "no entry here"),
        _ => panic!("an invalid line was expected"),
    }
}

#[test]
fn disc_and_track_must_be_numbers() {
    match parse_timestamp("* 1 Title 0:00:00") {
        Err(ParseError::InvalidNumber(l)) => assert_eq!(l, "* 1 Title 0:00:00"),
        _ => panic!("an invalid number was expected"),
    }
    assert!(matches!(parse_timestamp("1  Title 0:00:00"), Err(ParseError::InvalidNumber(_))));
}

#[test]
fn groups_become_an_entry() {
    let groups = vec![
        Some("2 3 T 1:00".to_string()),
        Some("2".to_string()),
        Some("3".to_string()),
        Some("T".to_string()),
        Some("1:00".to_string()),
    ];
    let t = match timestamp_from_groups("2 3 T 1:00", &groups) {
        Ok(t) => t,
        Err(_) => panic!("an entry was expected"),
    };
    assert_eq!((t.disc, t.track), (2, 3));
    assert_eq!(t.title, "T");
    assert_eq!(t.start_time, "1:00");
}

#[test]
fn missing_groups_are_refused() {
    let short = vec![Some("x".to_string()), Some("1".to_string())];
    assert!(matches!(timestamp_from_groups("x", &short), Err(ParseError::InvalidLine(_))));
    let hole = vec![
        Some("x".to_string()),
        Some("1".to_string()),
        None,
        Some("T".to_string()),
        Some("1:00".to_string()),
    ];
    assert!(matches!(timestamp_from_groups("x", &hole), Err(ParseError::InvalidLine(_))));
    let bad = vec![
        Some("x".to_string()),
        Some("1".to_string()),
        Some("99999999999999999999999".to_string()),
        Some("T".to_string()),
        Some("1:00".to_string()),
    ];
    assert!(matches!(timestamp_from_groups("x", &bad), Err(ParseError::InvalidNumber(_))));
}

#[test]
fn list_skips_blank_lines_and_trims() {
    let text = "  1 1 First 0:00  \n\n   \r\n1 2 Second Song 3:15\n";
    let list = match parse_timestamps(text) {
        Ok(list) => list,
        Err(_) => panic!("a list was expected"),
    };
    assert_eq!(list.len(), 2);
    assert_eq!(list[0].title, "First");
    assert_eq!(list[0].start_time, "0:00");
    assert_eq!(list[1].track, 2);
    assert_eq!(list[1].title, "Second Song");
    assert_eq!(list[1].start_time, "3:15");
}

#[test]
fn list_stops_at_the_first_bad_line() {
    let text = "1 1 First 0:00\nbroken\n1 2 Second 3:15\nalso broken";
    match parse_timestamps(text) {
        Err(ParseError::InvalidLine(l)) => assert_eq!(l, "broken"),
        _ => panic!("an invalid line was expected"),
    }
}

#[test]
fn empty_list_is_empty() {
    assert!(matches!(parse_timestamps(""), Ok(v) if v.is_empty()));
    let none: Vec<String> = Vec::new();
    assert!(matches!(parse_lines(&none), Ok(v) if v.is_empty()));
}

#[test]
fn one_disc_means_every_entry_on_disc_one() {
    assert!(is_one_disc(&vec![stamp(1, 1, "a", "0:00"), stamp(1, 2, "b", "1:00")]));
    assert!(!is_one_disc(&vec![stamp(1, 1, "a", "0:00"), stamp(2, 1, "b", "1:00")]));
    assert!(!is_one_disc(&vec![stamp(2, 1, "a", "0:00")]));
    assert!(is_one_disc(&Vec::new()));
}

#[test]
fn cut_has_start_and_end_bounds() {
    let list = vec![stamp(1, 1, "A", "0:00"), stamp(1, 2, "B", "3:15"), stamp(1, 3, "C", "7:02")];
    let args = split_args("in/all.flac", &list, 1, &no_info(), false, "out/02. B.flac");
    assert_eq!(
        args,
        parts(&[
            "-n", "-i", "in/all.flac", "-ss", "3:15", "-to", "7:02", "-write_id3v2", "1",
            "-metadata", "title=B", "-metadata", "disc=1", "-metadata", "track=2", "-c", "copy",
            "out/02. B.flac"
        ])
    );
}

#[test]
fn last_cut_has_no_end_bound() {
    let list = vec![stamp(1, 1, "A", "0:00"), stamp(1, 2, "B", "3:15")];
    let args = split_args("in/all.flac", &list, 1, &no_info(), true, "o");
    assert!(!args.iter().any(|a| a == "-to"));
    assert_eq!(
        args,
        parts(&[
            "-y", "-i", "in/all.flac", "-ss", "3:15", "-write_id3v2", "1", "-metadata",
            "title=B", "-metadata", "disc=1", "-metadata", "track=2", "-c", "copy", "o"
        ])
    );
}

#[test]
fn album_metadata_is_stamped() {
    let list = vec![stamp(2, 11, "A B", "0:00")];
    let info = AlbumInfo {
        artist: Some("Artist".to_string()),
        album: Some("Album".to_string()),
        date: Some("1978".to_string()),
    };
    let args = split_args("s", &list, 0, &info, false, "o");
    assert_eq!(
        args,
        parts(&[
            "-n", "-i", "s", "-ss", "0:00", "-write_id3v2", "1", "-metadata", "artist=Artist",
            "-metadata", "albumartist=Artist", "-metadata", "album=Album", "-metadata",
            "date=1978", "-metadata", "title=A B", "-metadata", "disc=2", "-metadata",
            "track=11", "-c", "copy", "o"
        ])
    );
}

#[test]
fn single_disc_output_is_flat() {
    let list = vec![stamp(1, 1, "A", "0:00"), stamp(1, 2, "B", "3:15")];
    let jobs = plan_tracks(
        &file(&["in", "all.flac"]),
        &parts(&["out"]),
        "flac",
        &list,
        &no_info(),
        false,
        true,
    );
    assert_eq!(jobs.len(), 2);
    assert_eq!(jobs[0].output_parts, parts(&["out", "01. A.flac"]));
    assert_eq!(jobs[1].output_parts, parts(&["out", "02. B.flac"]));
    assert_eq!(jobs[1].output, "out/02. B.flac");
    assert_eq!(jobs[1].invocation.args.last().unwrap(), "out/02. B.flac");
    assert!(jobs[1].invocation.quiet);
}

#[test]
fn several_discs_are_partitioned() {
    let list = vec![stamp(1, 1, "A", "0:00"), stamp(2, 1, "B", "3:15"), stamp(12, 10, "C", "9:00")];
    let jobs = plan_tracks(
        &file(&["in", "all.mp3"]),
        &parts(&["out"]),
        "mp3",
        &list,
        &no_info(),
        false,
        false,
    );
    assert_eq!(jobs[0].output_parts, parts(&["out", "CD1", "01. A.mp3"]));
    assert_eq!(jobs[1].output_parts, parts(&["out", "CD2", "01. B.mp3"]));
    assert_eq!(jobs[2].output_parts, parts(&["out", "CD12", "10. C.mp3"]));
    assert_eq!(jobs[2].output, "out/CD12/10. C.mp3");
}

#[test]
fn a_lone_second_disc_has_its_directory() {
    let list = vec![stamp(2, 1, "A", "0:00")];
    let jobs = plan_tracks(
        &file(&["in", "all.mp3"]),
        &parts(&["out"]),
        "mp3",
        &list,
        &no_info(),
        false,
        false,
    );
    assert_eq!(jobs[0].output_parts, parts(&["out", "CD2", "01. A.mp3"]));
}

#[test]
fn split_run_from_text() {
    let jobs = match run(
        &file(&["in", "concert.flac"]),
        &parts(&["out"]),
        "1 1 Intro 0:00\n1 2 Main Part 12:30\n",
        &no_info(),
        false,
        false,
    ) {
        Ok(jobs) => jobs,
        Err(_) => panic!("jobs were expected"),
    };
    assert_eq!(jobs.len(), 2);
    assert_eq!(jobs[0].invocation.args[4], "0:00");
    assert_eq!(jobs[0].invocation.args[5], "-to");
    assert_eq!(jobs[0].invocation.args[6], "12:30");
    assert_eq!(jobs[1].invocation.args[4], "12:30");
    assert_eq!(jobs[1].invocation.args[5], "-write_id3v2");
    assert_eq!(jobs[1].output, "out/02. Main Part.flac");
}

#[test]
fn split_needs_an_extension() {
    let r = run(&file(&["in", "concert"]), &parts(&["out"]), "garbage", &no_info(), false, false);
    assert!(matches!(r, Err(SplitError::NoExtension)));
}

#[test]
fn split_reports_a_bad_list() {
    let r = run(&file(&["in", "c.flac"]), &parts(&["out"]), "garbage", &no_info(), false, false);
    match r {
        Err(SplitError::Parse(ParseError::InvalidLine(l))) => assert_eq!(l, "garbage"),
        _ => panic!("a parse error was expected"),
    }
}
