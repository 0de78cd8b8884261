//! Splitting one audio file into tracks at listed start times.

use vstd::prelude::*;
use crate::invocation::{overwrite_arg, overwrite_flag, EngineInvocation, Job};
use crate::paths::{extension, extension_spec, file_name, file_name_of, render_path, SourceFile};
use crate::pattern::{groups_view, regex_captures, regex_captures_of};
use crate::text::{
    append_decimal, append_decimal_two, clone_strs, decimal, decimal_two, joined, lines,
    lines_of, opt_str, parse_usize, parse_usize_spec, push_str, strs, trim, trimmed,
};

verus! {

/// One entry of a split list: disc, track, title and the time at which the
/// track starts.
pub struct Timestamp {
    pub disc: usize,
    pub track: usize,
    pub title: String,
    pub start_time: String,
}

/// A [`Timestamp`] as mathematical values.
pub struct TimestampView {
    pub disc: nat,
    pub track: nat,
    pub title: Seq<char>,
    pub start_time: Seq<char>,
}

impl View for Timestamp {
    type V = TimestampView;

    open spec fn view(&self) -> TimestampView {
        TimestampView {
            disc: self.disc as nat,
            track: self.track as nat,
            title: self.title@,
            start_time: self.start_time@,
        }
    }
}

/// The entries of a list as mathematical values.
pub open spec fn stamps(v: Seq<Timestamp>) -> Seq<TimestampView> {
    v.map_values(|t: Timestamp| t@)
}

/// Why a split list could not be read.
pub enum ParseError {
    /// The line pattern itself was refused by the regular-expression engine.
    Pattern,
    /// The line does not have the shape of an entry.
    InvalidLine(String),
    /// Disc or track of the line is no number.
    InvalidNumber(String),
}

/// A [`ParseError`] as mathematical values.
pub enum ParseFault {
    Pattern,
    InvalidLine(Seq<char>),
    InvalidNumber(Seq<char>),
}

impl View for ParseError {
    type V = ParseFault;

    open spec fn view(&self) -> ParseFault {
        match self {
            ParseError::Pattern => ParseFault::Pattern,
            ParseError::InvalidLine(l) => ParseFault::InvalidLine(l@),
            ParseError::InvalidNumber(l) => ParseFault::InvalidNumber(l@),
        }
    }
}

/// The shape of an entry: disc, track, a title that may hold spaces, and a
/// start time of hours, minutes and seconds.
pub open spec fn timestamp_pattern() -> Seq<char> {
    "([0-9*]*) ([0-9]*) (.*) ([0-9]{1,2}:[0-9]{1,2}:?[0-9]{1,2})"@
}

/// The entry that the capture groups of a matched line stand for.
///
/// Groups 1 to 4 are disc, track, title and start time; a list that lacks
/// one of them is no entry, and disc and track must be numbers.
pub open spec fn timestamp_of_groups(raw: Seq<char>, groups: Seq<Option<Seq<char>>>) -> Result<
    TimestampView,
    ParseFault,
> {
    if groups.len() < 5 || groups[1] is None || groups[2] is None || groups[3] is None
        || groups[4] is None {
        Err(ParseFault::InvalidLine(raw))
    } else {
        match (parse_usize_spec(groups[1]->0), parse_usize_spec(groups[2]->0)) {
            (Some(disc), Some(track)) => Ok(
                TimestampView {
                    disc: disc as nat,
                    track: track as nat,
                    title: groups[3]->0,
                    start_time: groups[4]->0,
                },
            ),
            _ => Err(ParseFault::InvalidNumber(raw)),
        }
    }
}

/// The entry that a search for the line pattern in `raw` comes to.
pub open spec fn timestamp_of_captures(
    raw: Seq<char>,
    caps: Option<Option<Seq<Option<Seq<char>>>>>,
) -> Result<TimestampView, ParseFault> {
    match caps {
        None => Err(ParseFault::Pattern),
        Some(None) => Err(ParseFault::InvalidLine(raw)),
        Some(Some(groups)) => timestamp_of_groups(raw, groups),
    }
}

/// The entry written on the line `raw`.
pub open spec fn parse_timestamp_spec(raw: Seq<char>) -> Result<TimestampView, ParseFault> {
    timestamp_of_captures(raw, regex_captures_of(timestamp_pattern(), raw))
}

/// The contents of a parse result.
pub open spec fn parsed_view(r: Result<Timestamp, ParseError>) -> Result<
    TimestampView,
    ParseFault,
> {
    match r {
        Ok(t) => Ok(t@),
        Err(e) => Err(e@),
    }
}

/// Turns the capture groups of a matched line into an entry.
pub fn timestamp_from_groups(raw: &str, groups: &Vec<Option<String>>) -> (r: Result<
    Timestamp,
    ParseError,
>)
    ensures
        parsed_view(r) == timestamp_of_groups(raw@, groups_view(groups@)),
{
    if groups.len() < 5 {
        return Err(ParseError::InvalidLine(String::from_str(raw)));
    }
    proof {
        assert(groups_view(groups@)[1] == opt_str(groups@[1]));
        assert(groups_view(groups@)[2] == opt_str(groups@[2]));
        assert(groups_view(groups@)[3] == opt_str(groups@[3]));
        assert(groups_view(groups@)[4] == opt_str(groups@[4]));
    }
    match (&groups[1], &groups[2], &groups[3], &groups[4]) {
        (Some(disc_text), Some(track_text), Some(title), Some(start_time)) => {
            match (parse_usize(disc_text.as_str()), parse_usize(track_text.as_str())) {
                (Some(disc), Some(track)) => Ok(
                    Timestamp { disc, track, title: title.clone(), start_time: start_time.clone() },
                ),
                _ => Err(ParseError::InvalidNumber(String::from_str(raw))),
            }
        },
        _ => Err(ParseError::InvalidLine(String::from_str(raw))),
    }
}

/// Reads one line of a split list. The line must hold an entry; a line of
/// any other shape is an error that carries the line.
pub fn parse_timestamp(raw: &str) -> (r: Result<Timestamp, ParseError>)
    ensures
        parsed_view(r) == parse_timestamp_spec(raw@),
{
    let caps = regex_captures(
        "([0-9*]*) ([0-9]*) (.*) ([0-9]{1,2}:[0-9]{1,2}:?[0-9]{1,2})",
        raw,
    );
    match caps {
        None => Err(ParseError::Pattern),
        Some(None) => Err(ParseError::InvalidLine(String::from_str(raw))),
        Some(Some(groups)) => timestamp_from_groups(raw, &groups),
    }
}

/// The entries written on the given lines: each line is trimmed, blank
/// lines are passed over, and the first line that is no entry ends the
/// reading with its error.
pub open spec fn parse_lines_spec(lines: Seq<Seq<char>>) -> Result<Seq<TimestampView>, ParseFault>
    decreases lines.len(),
{
    if lines.len() == 0 {
        Ok(Seq::empty())
    } else {
        match parse_lines_spec(lines.drop_last()) {
            Err(e) => Err(e),
            Ok(found) => {
                let line = trimmed(lines.last());
                if line.len() == 0 {
                    Ok(found)
                } else {
                    match parse_timestamp_spec(line) {
                        Ok(t) => Ok(found.push(t)),
                        Err(e) => Err(e),
                    }
                }
            },
        }
    }
}

/// The contents of the result of reading a list.
pub open spec fn list_view(r: Result<Vec<Timestamp>, ParseError>) -> Result<
    Seq<TimestampView>,
    ParseFault,
> {
    match r {
        Ok(v) => Ok(stamps(v@)),
        Err(e) => Err(e@),
    }
}

/// Reads the entries from lines already split.
pub fn parse_lines(lines: &Vec<String>) -> (r: Result<Vec<Timestamp>, ParseError>)
    ensures
        list_view(r) == parse_lines_spec(strs(lines@)),
{
    let mut found: Vec<Timestamp> = Vec::new();
    let mut i: usize = 0;
    proof {
        assert(strs(lines@).take(0) =~= Seq::<Seq<char>>::empty());
        assert(stamps(found@) =~= Seq::<TimestampView>::empty());
    }
    while i < lines.len()
        invariant
            i <= lines.len(),
            parse_lines_spec(strs(lines@).take(i as int)) == Ok::<Seq<TimestampView>, ParseFault>(
                stamps(found@),
            ),
        decreases lines.len() - i,
    {
        let ghost before = stamps(found@);
        proof {
            let next = strs(lines@).take(i as int + 1);
            assert(next.drop_last() =~= strs(lines@).take(i as int));
            assert(next.last() == lines@[i as int]@);
        }
        let line = trim(lines[i].as_str());
        if line.as_str().unicode_len() > 0 {
            match parse_timestamp(line.as_str()) {
                Ok(t) => {
                    found.push(t);
                    proof {
                        assert(stamps(found@) =~= before.push(t@));
                    }
                },
                Err(e) => {
                    proof {
                        lemma_parse_error_stays(strs(lines@), i as int + 1);
                    }
                    return Err(e);
                },
            }
        }
        i += 1;
    }
    proof {
        assert(strs(lines@).take(lines.len() as int) =~= strs(lines@));
    }
    Ok(found)
}

/// Once a prefix of the lines fails, every longer prefix fails alike.
proof fn lemma_parse_error_stays(lines: Seq<Seq<char>>, n: int)
    requires
        0 <= n <= lines.len(),
        parse_lines_spec(lines.take(n)) is Err,
    ensures
        parse_lines_spec(lines) == parse_lines_spec(lines.take(n)),
    decreases lines.len() - n,
{
    if n == lines.len() {
        assert(lines.take(n) =~= lines);
    } else {
        assert(lines.take(n + 1).drop_last() =~= lines.take(n));
        lemma_parse_error_stays(lines, n + 1);
    }
}

/// Reads a split list: one entry on each line that is not blank.
pub fn parse_timestamps(text: &str) -> (r: Result<Vec<Timestamp>, ParseError>)
    ensures
        list_view(r) == parse_lines_spec(lines_of(text@)),
{
    let all = lines(text);
    parse_lines(&all)
}

/// Every entry is on disc 1.
pub open spec fn one_disc(list: Seq<TimestampView>) -> bool {
    forall|i: int| 0 <= i < list.len() ==> (#[trigger] list[i]).disc == 1
}

/// Whether every entry is on disc 1.
pub fn is_one_disc(list: &Vec<Timestamp>) -> (r: bool)
    ensures
        r == one_disc(stamps(list@)),
{
    let mut i: usize = 0;
    while i < list.len()
        invariant
            i <= list.len(),
            forall|j: int| 0 <= j < i ==> (#[trigger] stamps(list@)[j]).disc == 1,
        decreases list.len() - i,
    {
        if list[i].disc != 1 {
            proof {
                assert(stamps(list@)[i as int].disc != 1);
            }
            return false;
        }
        i += 1;
    }
    true
}

/// The name of the file that holds an entry: the track number in at least
/// two digits, the title, and the source's extension.
pub open spec fn track_file_name(stamp: TimestampView, ext: Seq<char>) -> Seq<char> {
    decimal_two(stamp.track) + ". "@ + stamp.title + "."@ + ext
}

/// The name of the directory that holds the tracks of one disc.
pub open spec fn disc_dir_name(disc: nat) -> Seq<char> {
    "CD"@ + decimal(disc)
}

/// Where an entry's file goes: directly below `dest` when the whole list is
/// on disc 1, else below the directory of the entry's disc.
pub open spec fn track_output_parts(
    dest: Seq<Seq<char>>,
    list: Seq<TimestampView>,
    i: int,
    ext: Seq<char>,
) -> Seq<Seq<char>> {
    if one_disc(list) {
        dest.push(track_file_name(list[i], ext))
    } else {
        dest.push(disc_dir_name(list[i].disc)).push(track_file_name(list[i], ext))
    }
}

/// A list that is all on disc 1 puts every file directly below the
/// destination.
pub proof fn lemma_single_disc_is_flat(
    dest: Seq<Seq<char>>,
    list: Seq<TimestampView>,
    i: int,
    ext: Seq<char>,
)
    requires
        0 <= i < list.len(),
        forall|j: int| 0 <= j < list.len() ==> (#[trigger] list[j]).disc == 1,
    ensures
        track_output_parts(dest, list, i, ext) == dest.push(track_file_name(list[i], ext)),
{
}

/// A list that names two different discs puts every file below the
/// directory of its own disc.
pub proof fn lemma_several_discs_are_partitioned(
    dest: Seq<Seq<char>>,
    list: Seq<TimestampView>,
    i: int,
    ext: Seq<char>,
    a: int,
    b: int,
)
    requires
        0 <= i < list.len(),
        0 <= a < list.len(),
        0 <= b < list.len(),
        list[a].disc != list[b].disc,
    ensures
        track_output_parts(dest, list, i, ext) == dest.push(disc_dir_name(list[i].disc)).push(
            track_file_name(list[i], ext),
        ),
{
    if one_disc(list) {
        assert(list[a].disc == 1);
        assert(list[b].disc == 1);
    }
}

/// The metadata that every track of a split carries, where given.
pub struct AlbumInfo {
    pub artist: Option<String>,
    pub album: Option<String>,
    pub date: Option<String>,
}

/// The arguments that cut entry `i` out of `src` into `out`.
///
/// The cut starts at the entry's time and ends at the next entry's; the
/// last entry has no end. Streams are copied as they are.
pub open spec fn split_args_spec(
    src: Seq<char>,
    list: Seq<TimestampView>,
    i: int,
    artist: Option<Seq<char>>,
    album: Option<Seq<char>>,
    date: Option<Seq<char>>,
    overwrite: bool,
    out: Seq<char>,
) -> Seq<Seq<char>> {
    let a = seq![overwrite_flag(overwrite), "-i"@, src, "-ss"@, list[i].start_time];
    let a = if i + 1 < list.len() {
        a + seq!["-to"@, list[i + 1].start_time]
    } else {
        a
    };
    let a = a + seq!["-write_id3v2"@, "1"@];
    let a = match artist {
        Some(x) => a + seq!["-metadata"@, "artist="@ + x, "-metadata"@, "albumartist="@ + x],
        None => a,
    };
    let a = match album {
        Some(x) => a + seq!["-metadata"@, "album="@ + x],
        None => a,
    };
    let a = match date {
        Some(x) => a + seq!["-metadata"@, "date="@ + x],
        None => a,
    };
    a + seq![
        "-metadata"@,
        "title="@ + list[i].title,
        "-metadata"@,
        "disc="@ + decimal(list[i].disc),
        "-metadata"@,
        "track="@ + decimal(list[i].track),
        "-c"@,
        "copy"@,
        out,
    ]
}

/// Every cut starts at its entry's time. A cut that is not the last ends at
/// the next entry's time; the last cut has no end bound: what follows its
/// start is the next option.
pub proof fn lemma_split_bounds(
    src: Seq<char>,
    list: Seq<TimestampView>,
    i: int,
    artist: Option<Seq<char>>,
    album: Option<Seq<char>>,
    date: Option<Seq<char>>,
    overwrite: bool,
    out: Seq<char>,
)
    requires
        0 <= i < list.len(),
    ensures
        ({
            let a = split_args_spec(src, list, i, artist, album, date, overwrite, out);
            &&& a.len() >= 16
            &&& a[3] == "-ss"@
            &&& a[4] == list[i].start_time
            &&& i + 1 < list.len() ==> a[5] == "-to"@ && a[6] == list[i + 1].start_time && a[7]
                == "-write_id3v2"@
            &&& i + 1 == list.len() ==> a[5] == "-write_id3v2"@ && a[5] != "-to"@
        }),
{
    reveal_strlit("-to");
    reveal_strlit("-write_id3v2");
    assert("-to"@.len() != "-write_id3v2"@.len());
}

fn push_metadata(args: &mut Vec<String>, key: &str, value: &str)
    ensures
        strs(final(args)@) == strs(old(args)@) + seq!["-metadata"@, key@ + value@],
{
    push_str(args, "-metadata");
    let pair = joined(key, value);
    push_str(args, pair.as_str());
    proof {
        assert(strs(args@) =~= strs(old(args)@) + seq!["-metadata"@, key@ + value@]);
    }
}

fn push_metadata_number(args: &mut Vec<String>, key: &str, value: usize)
    ensures
        strs(final(args)@) == strs(old(args)@) + seq!["-metadata"@, key@ + decimal(value as nat)],
{
    push_str(args, "-metadata");
    let mut pair = String::from_str(key);
    append_decimal(&mut pair, value as u64);
    push_str(args, pair.as_str());
    proof {
        assert(strs(args@) =~= strs(old(args)@) + seq![
            "-metadata"@,
            key@ + decimal(value as nat),
        ]);
    }
}

/// Builds the argument list that cuts entry `i` out of `src` into `out`.
pub fn split_args(
    src: &str,
    list: &Vec<Timestamp>,
    i: usize,
    info: &AlbumInfo,
    overwrite: bool,
    out: &str,
) -> (r: Vec<String>)
    requires
        i < list.len(),
    ensures
        strs(r@) == split_args_spec(
            src@,
            stamps(list@),
            i as int,
            opt_str(info.artist),
            opt_str(info.album),
            opt_str(info.date),
            overwrite,
            out@,
        ),
{
    let ghost l = stamps(list@);
    let stamp = &list[i];
    proof {
        assert(l[i as int] == stamp@);
    }
    let mut args: Vec<String> = Vec::new();
    push_str(&mut args, overwrite_arg(overwrite));
    push_str(&mut args, "-i");
    push_str(&mut args, src);
    push_str(&mut args, "-ss");
    push_str(&mut args, stamp.start_time.as_str());
    let ghost a0 = seq![overwrite_flag(overwrite), "-i"@, src@, "-ss"@, l[i as int].start_time];
    assert(strs(args@) =~= a0);
    if i + 1 < list.len() {
        proof {
            assert(l[i as int + 1] == list@[i as int + 1]@);
        }
        push_str(&mut args, "-to");
        push_str(&mut args, list[i + 1].start_time.as_str());
    }
    let ghost a1 = if i + 1 < l.len() {
        a0 + seq!["-to"@, l[i as int + 1].start_time]
    } else {
        a0
    };
    assert(strs(args@) =~= a1);
    push_str(&mut args, "-write_id3v2");
    push_str(&mut args, "1");
    let ghost a2 = a1 + seq!["-write_id3v2"@, "1"@];
    assert(strs(args@) =~= a2);
    match &info.artist {
        Some(x) => {
            push_metadata(&mut args, "artist=", x.as_str());
            push_metadata(&mut args, "albumartist=", x.as_str());
        },
        None => {},
    }
    let ghost a3 = match opt_str(info.artist) {
        Some(x) => a2 + seq!["-metadata"@, "artist="@ + x, "-metadata"@, "albumartist="@ + x],
        None => a2,
    };
    assert(strs(args@) =~= a3);
    match &info.album {
        Some(x) => {
            push_metadata(&mut args, "album=", x.as_str());
        },
        None => {},
    }
    let ghost a4 = match opt_str(info.album) {
        Some(x) => a3 + seq!["-metadata"@, "album="@ + x],
        None => a3,
    };
    assert(strs(args@) =~= a4);
    match &info.date {
        Some(x) => {
            push_metadata(&mut args, "date=", x.as_str());
        },
        None => {},
    }
    let ghost a5 = match opt_str(info.date) {
        Some(x) => a4 + seq!["-metadata"@, "date="@ + x],
        None => a4,
    };
    assert(strs(args@) =~= a5);
    push_metadata(&mut args, "title=", stamp.title.as_str());
    push_metadata_number(&mut args, "disc=", stamp.disc);
    push_metadata_number(&mut args, "track=", stamp.track);
    push_str(&mut args, "-c");
    push_str(&mut args, "copy");
    push_str(&mut args, out);
    assert(strs(args@) =~= a5 + seq![
        "-metadata"@,
        "title="@ + l[i as int].title,
        "-metadata"@,
        "disc="@ + decimal(l[i as int].disc),
        "-metadata"@,
        "track="@ + decimal(l[i as int].track),
        "-c"@,
        "copy"@,
        out@,
    ]);
    args
}

/// Why a split could not be planned.
pub enum SplitError {
    /// The source file's name has no extension to give to the tracks.
    NoExtension,
    /// The split list could not be read.
    Parse(ParseError),
}

/// The extension of the source file of a split, if it has one.
pub open spec fn source_extension(src: SourceFile) -> Option<Seq<char>> {
    match file_name_of(strs(src.parts@)) {
        Some(name) => extension_spec(name),
        None => None,
    }
}

/// `job` cuts entry `i` of `list` out of `src`.
pub open spec fn split_job_ok(
    job: Job,
    src: SourceFile,
    dest: Seq<Seq<char>>,
    list: Seq<TimestampView>,
    i: int,
    ext: Seq<char>,
    info: AlbumInfo,
    overwrite: bool,
    quiet: bool,
) -> bool {
    &&& strs(job.output_parts@) == track_output_parts(dest, list, i, ext)
    &&& job.invocation.quiet == quiet
    &&& job.invocation.arg_seq() == split_args_spec(
        src.path@,
        list,
        i,
        opt_str(info.artist),
        opt_str(info.album),
        opt_str(info.date),
        overwrite,
        job.output@,
    )
}

/// Plans one job for each entry of an already parsed list.
pub fn plan_tracks(
    src: &SourceFile,
    dest: &Vec<String>,
    ext: &str,
    list: &Vec<Timestamp>,
    info: &AlbumInfo,
    overwrite: bool,
    quiet: bool,
) -> (jobs: Vec<Job>)
    ensures
        jobs.len() == list.len(),
        forall|i: int|
            0 <= i < jobs.len() ==> split_job_ok(
                #[trigger] jobs[i],
                *src,
                strs(dest@),
                stamps(list@),
                i,
                ext@,
                *info,
                overwrite,
                quiet,
            ),
{
    let flat = is_one_disc(list);
    let mut jobs: Vec<Job> = Vec::new();
    let mut i: usize = 0;
    while i < list.len()
        invariant
            i <= list.len(),
            jobs.len() == i,
            flat == one_disc(stamps(list@)),
            forall|j: int|
                0 <= j < i ==> split_job_ok(
                    #[trigger] jobs[j],
                    *src,
                    strs(dest@),
                    stamps(list@),
                    j,
                    ext@,
                    *info,
                    overwrite,
                    quiet,
                ),
        decreases list.len() - i,
    {
        let stamp = &list[i];
        proof {
            assert(stamps(list@)[i as int] == stamp@);
        }
        let mut name = String::new();
        append_decimal_two(&mut name, stamp.track as u64);
        name.append(". ");
        name.append(stamp.title.as_str());
        name.append(".");
        name.append(ext);
        proof {
            assert(name@ =~= track_file_name(stamp@, ext@));
        }
        let mut output_parts = clone_strs(dest);
        if !flat {
            let mut dir = String::from_str("CD");
            append_decimal(&mut dir, stamp.disc as u64);
            push_str(&mut output_parts, dir.as_str());
        }
        push_str(&mut output_parts, name.as_str());
        let output = render_path(&output_parts);
        let args = split_args(src.path.as_str(), list, i, info, overwrite, output.as_str());
        jobs.push(Job { output_parts, output, invocation: EngineInvocation { args, quiet } });
        i += 1;
    }
    jobs
}

/// What a split of `src` by the list `text` comes to.
pub open spec fn split_outcome_ok(
    r: Result<Vec<Job>, SplitError>,
    src: SourceFile,
    dest: Seq<Seq<char>>,
    text: Seq<char>,
    info: AlbumInfo,
    overwrite: bool,
    quiet: bool,
) -> bool {
    match source_extension(src) {
        None => r == Err::<Vec<Job>, SplitError>(SplitError::NoExtension),
        Some(ext) => match parse_lines_spec(lines_of(text)) {
            Err(fault) => r matches Err(SplitError::Parse(e)) && e@ == fault,
            Ok(list) => r matches Ok(jobs) && jobs.len() == list.len() && forall|i: int|
                0 <= i < jobs.len() ==> split_job_ok(
                    #[trigger] jobs[i],
                    src,
                    dest,
                    list,
                    i,
                    ext,
                    info,
                    overwrite,
                    quiet,
                ),
        },
    }
}

/// Plans the split of `src` into one file for each entry of the list
/// written in `timestamps`, below the directory `dest`.
///
/// A source without an extension is refused first; then a line of the list
/// that is no entry is; else entry `i` gives job `i`.
pub fn run(
    src: &SourceFile,
    dest: &Vec<String>,
    timestamps: &str,
    info: &AlbumInfo,
    overwrite: bool,
    quiet: bool,
) -> (r: Result<Vec<Job>, SplitError>)
    ensures
        split_outcome_ok(r, *src, strs(dest@), timestamps@, *info, overwrite, quiet),
{
    let ext = match file_name(&src.parts) {
        Some(name) => match extension(name.as_str()) {
            Some(ext) => ext,
            None => {
                return Err(SplitError::NoExtension);
            },
        },
        None => {
            return Err(SplitError::NoExtension);
        },
    };
    let list = match parse_timestamps(timestamps) {
        Ok(list) => list,
        Err(e) => {
            return Err(SplitError::Parse(e));
        },
    };
    Ok(plan_tracks(src, dest, ext.as_str(), &list, info, overwrite, quiet))
}

} // verus!
