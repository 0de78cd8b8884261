//! Transcoding the audio files of a directory tree.

use vstd::prelude::*;
use crate::invocation::{overwrite_arg, overwrite_flag, EngineInvocation, Job};
use crate::paths::{
    extension_or_empty, is_prefix, path_extension, remap, remap_spec, render_path, retarget,
    retarget_spec, selected, str_eq, SourceFile, WalkError,
};
use crate::text::{
    contains, contains_seq, ends_with, ends_with_seq, parse_usize, parse_usize_spec, push_str,
    strs,
};

verus! {

/// The verdict on a pair of codec and container.
pub enum CodecCheck {
    /// The container can hold the codec.
    Accepted,
    /// An AAC codec asks for an `m4a` or `mkv` container.
    AacContainer,
    /// The `mp3` codec asks for an `mp3` container.
    Mp3Container,
    /// The `opus` codec asks for an `ogg` container.
    OpusContainer,
    /// The codec is none of those that are supported.
    UnsupportedCodec,
}

/// The verdict on `codec` in `container`.
pub open spec fn check_codec_spec(codec: Seq<char>, container: Seq<char>) -> CodecCheck {
    if codec == "aac"@ || codec == "libfdk_aac"@ {
        if container != "m4a"@ && container != "mkv"@ {
            CodecCheck::AacContainer
        } else {
            CodecCheck::Accepted
        }
    } else if codec == "mp3"@ {
        if container != "mp3"@ {
            CodecCheck::Mp3Container
        } else {
            CodecCheck::Accepted
        }
    } else if codec == "opus"@ {
        if container != "ogg"@ {
            CodecCheck::OpusContainer
        } else {
            CodecCheck::Accepted
        }
    } else {
        CodecCheck::UnsupportedCodec
    }
}

/// Judges whether `container` can hold audio encoded by `codec`.
pub fn check_codec(codec: &str, container: &str) -> (r: CodecCheck)
    ensures
        r == check_codec_spec(codec@, container@),
{
    if str_eq(codec, "aac") || str_eq(codec, "libfdk_aac") {
        if !str_eq(container, "m4a") && !str_eq(container, "mkv") {
            CodecCheck::AacContainer
        } else {
            CodecCheck::Accepted
        }
    } else if str_eq(codec, "mp3") {
        if !str_eq(container, "mp3") {
            CodecCheck::Mp3Container
        } else {
            CodecCheck::Accepted
        }
    } else if str_eq(codec, "opus") {
        if !str_eq(container, "ogg") {
            CodecCheck::OpusContainer
        } else {
            CodecCheck::Accepted
        }
    } else {
        CodecCheck::UnsupportedCodec
    }
}

/// A bitrate that was probably meant in kilobits: it lacks the suffix `k`
/// and is no number of 1000 or more.
pub open spec fn bitrate_seems_low_spec(bitrate: Seq<char>) -> bool {
    !ends_with_seq(bitrate, "k"@) && match parse_usize_spec(bitrate) {
        Some(n) => n < 1000,
        None => true,
    }
}

/// Whether the bitrate deserves a warning. It never blocks the operation.
pub fn bitrate_seems_low(bitrate: &str) -> (r: bool)
    ensures
        r == bitrate_seems_low_spec(bitrate@),
{
    if ends_with(bitrate, "k") {
        return false;
    }
    match parse_usize(bitrate) {
        Some(n) => n < 1000,
        None => true,
    }
}

/// Whether the plain `aac` codec was chosen where `libfdk_aac` would do
/// better.
pub fn should_prefer_fdk(codec: &str, container: &str) -> (r: bool)
    ensures
        r == (codec@ == "aac"@ && check_codec_spec(codec@, container@) is Accepted),
{
    str_eq(codec, "aac") && (str_eq(container, "m4a") || str_eq(container, "mkv"))
}

/// Whether the parameters of an audio transcode are accepted. The bitrate
/// has no part in the verdict.
pub fn validate_params(bitrate: &str, codec: &str, container: &str) -> (r: bool)
    ensures
        r == (check_codec_spec(codec@, container@) is Accepted),
{
    match check_codec(codec, container) {
        CodecCheck::Accepted => true,
        _ => false,
    }
}

/// The arguments that transcode the audio of `src` into `out`.
///
/// Metadata is carried over; an AAC codec drops the video stream.
pub open spec fn audio_args_spec(
    src: Seq<char>,
    out: Seq<char>,
    bitrate: Seq<char>,
    codec: Seq<char>,
    overwrite: bool,
) -> Seq<Seq<char>> {
    let a = seq![
        overwrite_flag(overwrite),
        "-i"@,
        src,
        "-acodec"@,
        codec,
        "-ab"@,
        bitrate,
        "-map_metadata"@,
        "0"@,
        "-id3v2_version"@,
        "3"@,
    ];
    let a = if contains_seq(codec, "aac"@) {
        a + seq!["-vn"@]
    } else {
        a
    };
    a + seq![out]
}

/// `job` transcodes `src` into the file at `dest`, with the container as
/// its extension.
pub open spec fn audio_job_ok(
    job: Job,
    src: SourceFile,
    dest: Seq<Seq<char>>,
    bitrate: Seq<char>,
    codec: Seq<char>,
    container: Seq<char>,
    overwrite: bool,
    quiet: bool,
) -> bool {
    &&& strs(job.output_parts@) == retarget_spec(dest, container)
    &&& job.invocation.quiet == quiet
    &&& job.invocation.arg_seq() == audio_args_spec(
        src.path@,
        job.output@,
        bitrate,
        codec,
        overwrite,
    )
}

/// Plans the transcode of one file. The output is `dest` with its extension
/// replaced by the container.
pub fn transcode_file(
    src: &SourceFile,
    dest: &Vec<String>,
    bitrate: &str,
    codec: &str,
    container: &str,
    overwrite: bool,
    quiet: bool,
) -> (job: Job)
    ensures
        audio_job_ok(job, *src, strs(dest@), bitrate@, codec@, container@, overwrite, quiet),
{
    let output_parts = retarget(dest, container);
    let output = render_path(&output_parts);
    let mut args: Vec<String> = Vec::new();
    push_str(&mut args, overwrite_arg(overwrite));
    push_str(&mut args, "-i");
    push_str(&mut args, src.path.as_str());
    push_str(&mut args, "-acodec");
    push_str(&mut args, codec);
    push_str(&mut args, "-ab");
    push_str(&mut args, bitrate);
    push_str(&mut args, "-map_metadata");
    push_str(&mut args, "0");
    push_str(&mut args, "-id3v2_version");
    push_str(&mut args, "3");
    let ghost a0 = seq![
        overwrite_flag(overwrite),
        "-i"@,
        src.path@,
        "-acodec"@,
        codec@,
        "-ab"@,
        bitrate@,
        "-map_metadata"@,
        "0"@,
        "-id3v2_version"@,
        "3"@,
    ];
    assert(strs(args@) =~= a0);
    if contains(codec, "aac") {
        push_str(&mut args, "-vn");
    }
    let ghost a1 = if contains_seq(codec@, "aac"@) {
        a0 + seq!["-vn"@]
    } else {
        a0
    };
    assert(strs(args@) =~= a1);
    push_str(&mut args, output.as_str());
    assert(strs(args@) =~= a1 + seq![output@]);
    Job { output_parts, output, invocation: EngineInvocation { args, quiet } }
}

/// The files whose extension is exactly `container`; a file without an
/// extension counts as having the empty one.
pub open spec fn in_container(container: Seq<char>) -> spec_fn(SourceFile) -> bool {
    |f: SourceFile| extension_or_empty(strs(f.parts@)) == container
}

/// `job` transcodes the file at index `at`, one of the first `n`, into its
/// mirrored place below `dest_root`.
pub open spec fn tree_job_ok(
    job: Job,
    at: int,
    n: int,
    root: Seq<Seq<char>>,
    dest_root: Seq<Seq<char>>,
    files: Seq<SourceFile>,
    bitrate: Seq<char>,
    codec: Seq<char>,
    container: Seq<char>,
    overwrite: bool,
    quiet: bool,
) -> bool {
    &&& 0 <= at < n
    &&& audio_job_ok(
        job,
        files[at],
        dest_root + strs(files[at].parts@).skip(root.len() as int),
        bitrate,
        codec,
        container,
        overwrite,
        quiet,
    )
}

/// What planning the files of a tree comes to.
pub open spec fn tree_outcome_ok(
    r: Result<Vec<Job>, WalkError>,
    root: Seq<Seq<char>>,
    dest_root: Seq<Seq<char>>,
    files: Seq<SourceFile>,
    src_container: Seq<char>,
    bitrate: Seq<char>,
    codec: Seq<char>,
    container: Seq<char>,
    overwrite: bool,
    quiet: bool,
) -> bool {
    match r {
        Err(WalkError::OutsideRoot { index }) => {
            &&& index < files.len()
            &&& !is_prefix(root, strs(files[index as int].parts@))
            &&& forall|j: int| 0 <= j < index ==> is_prefix(root, strs((#[trigger] files[j]).parts@))
        },
        Ok(jobs) => {
            let chosen = selected(files, in_container(src_container), files.len() as int);
            &&& forall|j: int| 0 <= j < files.len() ==> is_prefix(root, strs((#[trigger] files[j]).parts@))
            &&& jobs.len() == chosen.len()
            &&& forall|k: int|
                0 <= k < jobs.len() ==> tree_job_ok(
                    #[trigger] jobs[k],
                    chosen[k],
                    files.len() as int,
                    root,
                    dest_root,
                    files,
                    bitrate,
                    codec,
                    container,
                    overwrite,
                    quiet,
                )
        },
    }
}

/// Plans the transcode of every file of a walked tree whose extension is
/// `src_container`, in the order of the walk. Each output mirrors its
/// source's place below `root` into the tree below `dest_root`.
pub fn process_dir(
    root: &Vec<String>,
    dest_root: &Vec<String>,
    files: &Vec<SourceFile>,
    src_container: &str,
    bitrate: &str,
    codec: &str,
    container: &str,
    overwrite: bool,
    quiet: bool,
) -> (r: Result<Vec<Job>, WalkError>)
    ensures
        tree_outcome_ok(
            r,
            strs(root@),
            strs(dest_root@),
            files@,
            src_container@,
            bitrate@,
            codec@,
            container@,
            overwrite,
            quiet,
        ),
{
    let ghost keep = in_container(src_container@);
    let mut jobs: Vec<Job> = Vec::new();
    let mut i: usize = 0;
    while i < files.len()
        invariant
            i <= files.len(),
            keep == in_container(src_container@),
            forall|j: int| 0 <= j < i ==> is_prefix(strs(root@), strs((#[trigger] files@[j]).parts@)),
            jobs.len() == selected(files@, keep, i as int).len(),
            forall|k: int|
                0 <= k < jobs.len() ==> tree_job_ok(
                    #[trigger] jobs[k],
                    selected(files@, keep, i as int)[k],
                    i as int,
                    strs(root@),
                    strs(dest_root@),
                    files@,
                    bitrate@,
                    codec@,
                    container@,
                    overwrite,
                    quiet,
                ),
        decreases files.len() - i,
    {
        let file = &files[i];
        let dest = match remap(root, &file.parts, dest_root) {
            Some(dest) => dest,
            None => {
                return Err(WalkError::OutsideRoot { index: i });
            },
        };
        let ext = path_extension(&file.parts);
        let ghost before = selected(files@, keep, i as int);
        let ghost old_jobs = jobs@;
        if str_eq(ext.as_str(), src_container) {
            let job = transcode_file(file, &dest, bitrate, codec, container, overwrite, quiet);
            jobs.push(job);
            proof {
                assert(keep(files@[i as int]));
                assert(selected(files@, keep, i as int + 1) == before.push(i as int));
            }
        } else {
            proof {
                assert(!keep(files@[i as int]));
                assert(selected(files@, keep, i as int + 1) == before);
            }
        }
        proof {
            let after = selected(files@, keep, i as int + 1);
            assert forall|k: int| 0 <= k < jobs.len() implies tree_job_ok(
                #[trigger] jobs[k],
                after[k],
                i as int + 1,
                strs(root@),
                strs(dest_root@),
                files@,
                bitrate@,
                codec@,
                container@,
                overwrite,
                quiet,
            ) by {
                if k < old_jobs.len() {
                    assert(jobs[k] == old_jobs[k]);
                    assert(after[k] == before[k]);
                    assert(tree_job_ok(
                        old_jobs[k],
                        before[k],
                        i as int,
                        strs(root@),
                        strs(dest_root@),
                        files@,
                        bitrate@,
                        codec@,
                        container@,
                        overwrite,
                        quiet,
                    ));
                } else {
                    assert(after[k] == i as int);
                }
            }
        }
        i += 1;
    }
    Ok(jobs)
}

/// What an audio transcode of a tree comes to.
pub enum AudioPlan {
    /// The parameters were refused: nothing is to be done.
    Rejected(CodecCheck),
    /// One job for each selected file.
    Jobs(Vec<Job>),
}

/// Plans the audio transcode of a walked tree.
///
/// The parameters are judged once, before any file: where they are refused
/// there is no job at all. Otherwise the files are planned as
/// [`process_dir`] says.
pub fn run(
    root: &Vec<String>,
    src_container: &str,
    dest_root: &Vec<String>,
    files: &Vec<SourceFile>,
    bitrate: &str,
    codec: &str,
    container: &str,
    overwrite: bool,
    quiet: bool,
) -> (r: Result<AudioPlan, WalkError>)
    ensures
        !(check_codec_spec(codec@, container@) is Accepted) ==> r == Ok::<AudioPlan, WalkError>(
            AudioPlan::Rejected(check_codec_spec(codec@, container@)),
        ),
        check_codec_spec(codec@, container@) is Accepted ==> match r {
            Ok(AudioPlan::Jobs(jobs)) => tree_outcome_ok(
                Ok(jobs),
                strs(root@),
                strs(dest_root@),
                files@,
                src_container@,
                bitrate@,
                codec@,
                container@,
                overwrite,
                quiet,
            ),
            Ok(AudioPlan::Rejected(_)) => false,
            Err(e) => tree_outcome_ok(
                Err(e),
                strs(root@),
                strs(dest_root@),
                files@,
                src_container@,
                bitrate@,
                codec@,
                container@,
                overwrite,
                quiet,
            ),
        },
{
    match check_codec(codec, container) {
        CodecCheck::Accepted => {},
        other => {
            return Ok(AudioPlan::Rejected(other));
        },
    }
    match process_dir(
        root,
        dest_root,
        files,
        src_container,
        bitrate,
        codec,
        container,
        overwrite,
        quiet,
    ) {
        Ok(jobs) => Ok(AudioPlan::Jobs(jobs)),
        Err(e) => Err(e),
    }
}

} // verus!
