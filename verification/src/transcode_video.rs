//! Transcoding the video files of a directory to AV1.

use vstd::prelude::*;
use crate::invocation::{overwrite_arg, overwrite_flag, EngineInvocation, Job};
use crate::paths::{
    is_video_file, place_video_files, placed, render_path, selected, video_walk_error_ok,
    SourceFile, WalkError,
};
use crate::text::{clone_strs, decimal, decimal_string, push_str, strs};

verus! {

/// The arguments that transcode the video of `src` into `out`.
///
/// Every stream is copied but the video, which is encoded with the given
/// preset, constant rate factor and keyframe interval, in 10-bit colour
/// where forced.
pub open spec fn video_args_spec(
    src: Seq<char>,
    out: Seq<char>,
    preset: nat,
    crf: nat,
    keyframe_interval: nat,
    force_10bit: bool,
    overwrite: bool,
) -> Seq<Seq<char>> {
    let a = seq![
        overwrite_flag(overwrite),
        "-i"@,
        src,
        "-map"@,
        "0"@,
        "-c"@,
        "copy"@,
        "-c:v"@,
        "libsvtav1"@,
        "-preset"@,
        decimal(preset),
        "-crf"@,
        decimal(crf),
        "-g"@,
        decimal(keyframe_interval),
    ];
    let a = if force_10bit {
        a + seq!["-pix_fmt"@, "yuv420p10le"@]
    } else {
        a
    };
    a + seq![out]
}

/// Builds the argument list of one video transcode.
pub fn video_args(
    src: &str,
    out: &str,
    preset: u8,
    crf: u8,
    keyframe_interval: u16,
    force_10bit: bool,
    overwrite: bool,
) -> (r: Vec<String>)
    ensures
        strs(r@) == video_args_spec(
            src@,
            out@,
            preset as nat,
            crf as nat,
            keyframe_interval as nat,
            force_10bit,
            overwrite,
        ),
{
    let preset_text = decimal_string(preset as u64);
    let crf_text = decimal_string(crf as u64);
    let interval_text = decimal_string(keyframe_interval as u64);
    let mut args: Vec<String> = Vec::new();
    push_str(&mut args, overwrite_arg(overwrite));
    push_str(&mut args, "-i");
    push_str(&mut args, src);
    push_str(&mut args, "-map");
    push_str(&mut args, "0");
    push_str(&mut args, "-c");
    push_str(&mut args, "copy");
    push_str(&mut args, "-c:v");
    push_str(&mut args, "libsvtav1");
    push_str(&mut args, "-preset");
    push_str(&mut args, preset_text.as_str());
    push_str(&mut args, "-crf");
    push_str(&mut args, crf_text.as_str());
    push_str(&mut args, "-g");
    push_str(&mut args, interval_text.as_str());
    let ghost a0 = seq![
        overwrite_flag(overwrite),
        "-i"@,
        src@,
        "-map"@,
        "0"@,
        "-c"@,
        "copy"@,
        "-c:v"@,
        "libsvtav1"@,
        "-preset"@,
        decimal(preset as nat),
        "-crf"@,
        decimal(crf as nat),
        "-g"@,
        decimal(keyframe_interval as nat),
    ];
    assert(strs(args@) =~= a0);
    if force_10bit {
        push_str(&mut args, "-pix_fmt");
        push_str(&mut args, "yuv420p10le");
    }
    let ghost a1 = if force_10bit {
        a0 + seq!["-pix_fmt"@, "yuv420p10le"@]
    } else {
        a0
    };
    assert(strs(args@) =~= a1);
    push_str(&mut args, out);
    assert(strs(args@) =~= a1 + seq![out@]);
    args
}

/// `job` transcodes the file at index `at` into its mirrored place.
pub open spec fn video_job_ok(
    job: Job,
    at: int,
    root: Seq<Seq<char>>,
    dest_root: Seq<Seq<char>>,
    files: Seq<SourceFile>,
    preset: nat,
    crf: nat,
    keyframe_interval: nat,
    force_10bit: bool,
    overwrite: bool,
    quiet: bool,
) -> bool {
    &&& 0 <= at < files.len()
    &&& strs(job.output_parts@) == dest_root + strs(files[at].parts@).skip(root.len() as int)
    &&& job.invocation.quiet == quiet
    &&& job.invocation.arg_seq() == video_args_spec(
        files[at].path@,
        job.output@,
        preset,
        crf,
        keyframe_interval,
        force_10bit,
        overwrite,
    )
}

/// Plans the transcode of every video file of a flat walk, in the order of
/// the walk: files of other kinds are passed over, and each output takes
/// its source's place below `dest_root`.
pub fn run(
    root: &Vec<String>,
    dest_root: &Vec<String>,
    files: &Vec<SourceFile>,
    preset: u8,
    crf: u8,
    keyframe_interval: u16,
    force_10bit: bool,
    overwrite: bool,
    quiet: bool,
) -> (r: Result<Vec<Job>, WalkError>)
    ensures
        match r {
            Err(e) => video_walk_error_ok(e, strs(root@), files@),
            Ok(jobs) => {
                let chosen = selected(files@, is_video_file(), files.len() as int);
                &&& jobs.len() == chosen.len()
                &&& forall|k: int|
                    0 <= k < jobs.len() ==> video_job_ok(
                        #[trigger] jobs[k],
                        chosen[k],
                        strs(root@),
                        strs(dest_root@),
                        files@,
                        preset as nat,
                        crf as nat,
                        keyframe_interval as nat,
                        force_10bit,
                        overwrite,
                        quiet,
                    )
            },
        },
{
    let places = match place_video_files(root, dest_root, files) {
        Ok(places) => places,
        Err(e) => {
            return Err(e);
        },
    };
    let ghost chosen = selected(files@, is_video_file(), files.len() as int);
    let mut jobs: Vec<Job> = Vec::new();
    let mut k: usize = 0;
    while k < places.len()
        invariant
            k <= places.len(),
            jobs.len() == k,
            places.len() == chosen.len(),
            forall|j: int|
                0 <= j < places.len() ==> placed(
                    #[trigger] places[j],
                    chosen[j],
                    strs(root@),
                    strs(dest_root@),
                    files@,
                ),
            forall|j: int|
                0 <= j < k ==> video_job_ok(
                    #[trigger] jobs[j],
                    chosen[j],
                    strs(root@),
                    strs(dest_root@),
                    files@,
                    preset as nat,
                    crf as nat,
                    keyframe_interval as nat,
                    force_10bit,
                    overwrite,
                    quiet,
                ),
        decreases places.len() - k,
    {
        let place = &places[k];
        proof {
            assert(placed(places[k as int], chosen[k as int], strs(root@), strs(dest_root@), files@));
        }
        let file = &files[place.source];
        let output_parts = clone_strs(&place.dest);
        let output = render_path(&output_parts);
        let args = video_args(
            file.path.as_str(),
            output.as_str(),
            preset,
            crf,
            keyframe_interval,
            force_10bit,
            overwrite,
        );
        jobs.push(Job { output_parts, output, invocation: EngineInvocation { args, quiet } });
        k += 1;
    }
    Ok(jobs)
}

} // verus!
