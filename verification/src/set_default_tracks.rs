//! Choosing the default audio and subtitle tracks of video files.

use vstd::prelude::*;
use crate::invocation::{overwrite_arg, overwrite_flag, EngineInvocation, Job};
use crate::paths::{
    is_video_file, place_video_files, placed, render_path, selected, video_walk_error_ok,
    SourceFile, WalkError,
};
use crate::text::{append_decimal, clone_strs, decimal, push_str, strs};

verus! {

/// The arguments that rewrite the default tracks of `src` into `out`.
///
/// Streams are copied as they are. The default flag is cleared on every
/// audio and subtitle stream, then set on the one audio stream and the one
/// subtitle stream of the given indices, counted from zero.
pub open spec fn tracks_args_spec(
    src: Seq<char>,
    out: Seq<char>,
    audio_stream: nat,
    subtitle_stream: nat,
    overwrite: bool,
) -> Seq<Seq<char>> {
    seq![
        overwrite_flag(overwrite),
        "-i"@,
        src,
        "-map"@,
        "0"@,
        "-c"@,
        "copy"@,
        "-disposition:a"@,
        "0"@,
        "-disposition:s"@,
        "0"@,
        "-disposition:a:"@ + decimal(audio_stream),
        "default"@,
        "-disposition:s:"@ + decimal(subtitle_stream),
        "default"@,
        out,
    ]
}

/// Builds the argument list of one rewrite of default tracks.
pub fn tracks_args(src: &str, out: &str, audio_stream: u8, subtitle_stream: u8, overwrite: bool) -> (r:
    Vec<String>)
    ensures
        strs(r@) == tracks_args_spec(
            src@,
            out@,
            audio_stream as nat,
            subtitle_stream as nat,
            overwrite,
        ),
{
    let mut audio = String::from_str("-disposition:a:");
    append_decimal(&mut audio, audio_stream as u64);
    let mut subtitle = String::from_str("-disposition:s:");
    append_decimal(&mut subtitle, subtitle_stream as u64);
    let mut args: Vec<String> = Vec::new();
    push_str(&mut args, overwrite_arg(overwrite));
    push_str(&mut args, "-i");
    push_str(&mut args, src);
    push_str(&mut args, "-map");
    push_str(&mut args, "0");
    push_str(&mut args, "-c");
    push_str(&mut args, "copy");
    push_str(&mut args, "-disposition:a");
    push_str(&mut args, "0");
    push_str(&mut args, "-disposition:s");
    push_str(&mut args, "0");
    push_str(&mut args, audio.as_str());
    push_str(&mut args, "default");
    push_str(&mut args, subtitle.as_str());
    push_str(&mut args, "default");
    push_str(&mut args, out);
    assert(strs(args@) =~= tracks_args_spec(
        src@,
        out@,
        audio_stream as nat,
        subtitle_stream as nat,
        overwrite,
    ));
    args
}

/// `job` rewrites the file at index `at` into its mirrored place.
pub open spec fn tracks_job_ok(
    job: Job,
    at: int,
    root: Seq<Seq<char>>,
    dest_root: Seq<Seq<char>>,
    files: Seq<SourceFile>,
    audio_stream: nat,
    subtitle_stream: nat,
    overwrite: bool,
    quiet: bool,
) -> bool {
    &&& 0 <= at < files.len()
    &&& strs(job.output_parts@) == dest_root + strs(files[at].parts@).skip(root.len() as int)
    &&& job.invocation.quiet == quiet
    &&& job.invocation.arg_seq() == tracks_args_spec(
        files[at].path@,
        job.output@,
        audio_stream,
        subtitle_stream,
        overwrite,
    )
}

/// Plans the rewrite of every video file of a flat walk, in the order of
/// the walk: files of other kinds are passed over, and each output takes
/// its source's place below `dest_root`.
pub fn run(
    root: &Vec<String>,
    dest_root: &Vec<String>,
    files: &Vec<SourceFile>,
    audio_stream: u8,
    subtitle_stream: u8,
    overwrite: bool,
    quiet: bool,
) -> (r: Result<Vec<Job>, WalkError>)
    ensures
        match r {
            Err(e) => video_walk_error_ok(e, strs(root@), files@),
            Ok(jobs) => {
                let chosen = selected(files@, is_video_file(), files.len() as int);
                &&& jobs.len() == chosen.len()
                &&& forall|k: int|
                    0 <= k < jobs.len() ==> tracks_job_ok(
                        #[trigger] jobs[k],
                        chosen[k],
                        strs(root@),
                        strs(dest_root@),
                        files@,
                        audio_stream as nat,
                        subtitle_stream as nat,
                        overwrite,
                        quiet,
                    )
            },
        },
{
    let places = match place_video_files(root, dest_root, files) {
        Ok(places) => places,
        Err(e) => {
            return Err(e);
        },
    };
    let ghost chosen = selected(files@, is_video_file(), files.len() as int);
    let mut jobs: Vec<Job> = Vec::new();
    let mut k: usize = 0;
    while k < places.len()
        invariant
            k <= places.len(),
            jobs.len() == k,
            places.len() == chosen.len(),
            forall|j: int|
                0 <= j < places.len() ==> placed(
                    #[trigger] places[j],
                    chosen[j],
                    strs(root@),
                    strs(dest_root@),
                    files@,
                ),
            forall|j: int|
                0 <= j < k ==> tracks_job_ok(
                    #[trigger] jobs[j],
                    chosen[j],
                    strs(root@),
                    strs(dest_root@),
                    files@,
                    audio_stream as nat,
                    subtitle_stream as nat,
                    overwrite,
                    quiet,
                ),
        decreases places.len() - k,
    {
        let place = &places[k];
        proof {
            assert(placed(places[k as int], chosen[k as int], strs(root@), strs(dest_root@), files@));
        }
        let file = &files[place.source];
        let output_parts = clone_strs(&place.dest);
        let output = render_path(&output_parts);
        let args = tracks_args(
            file.path.as_str(),
            output.as_str(),
            audio_stream,
            subtitle_stream,
            overwrite,
        );
        jobs.push(Job { output_parts, output, invocation: EngineInvocation { args, quiet } });
        k += 1;
    }
    Ok(jobs)
}

} // verus!
