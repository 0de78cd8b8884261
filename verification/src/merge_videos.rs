//! Merging the streams of one file with the metadata of another.

use vstd::prelude::*;
use crate::invocation::{overwrite_arg, overwrite_flag, EngineInvocation, Job};
use crate::paths::{file_name, file_name_of, render_path, SourceFile};
use crate::text::{clone_strs, opt_str, push_str, strs};

verus! {

/// The arguments that merge `base` and `content` into `dest`.
///
/// Video and audio come from `content` unless the flag keeps the base's;
/// everything else, metadata included, comes from `base`, and what was taken
/// from `content` is left out of `base` so that no stream occurs twice.
/// Nothing is re-encoded.
pub open spec fn merge_args_spec(
    base: Seq<char>,
    content: Seq<char>,
    dest: Seq<char>,
    video_from_base: bool,
    audio_from_base: bool,
    overwrite: bool,
) -> Seq<Seq<char>> {
    let a = seq![overwrite_flag(overwrite), "-i"@, base, "-i"@, content];
    let a = if video_from_base {
        a
    } else {
        a + seq!["-map"@, "1:v"@]
    };
    let a = if audio_from_base {
        a
    } else {
        a + seq!["-map"@, "1:a"@]
    };
    let a = a + seq!["-map"@, "0"@, "-map_metadata"@, "0"@];
    let a = if video_from_base {
        a
    } else {
        a + seq!["-map"@, "-0:v"@]
    };
    let a = if audio_from_base {
        a
    } else {
        a + seq!["-map"@, "-0:a"@]
    };
    a + seq!["-c"@, "copy"@, dest]
}

/// A merge reads exactly its two inputs, the base first and the content
/// second, and writes to its destination last.
pub proof fn lemma_merge_reads_its_pair(
    base: Seq<char>,
    content: Seq<char>,
    dest: Seq<char>,
    video_from_base: bool,
    audio_from_base: bool,
    overwrite: bool,
)
    ensures
        ({
            let a = merge_args_spec(base, content, dest, video_from_base, audio_from_base, overwrite);
            &&& a.len() >= 12
            &&& a[1] == "-i"@
            &&& a[2] == base
            &&& a[3] == "-i"@
            &&& a[4] == content
            &&& a.last() == dest
        }),
{
}

/// Builds the argument list of one merge.
pub fn merge_args(
    base: &str,
    content: &str,
    dest: &str,
    video_from_base: bool,
    audio_from_base: bool,
    overwrite: bool,
) -> (r: Vec<String>)
    ensures
        strs(r@) == merge_args_spec(
            base@,
            content@,
            dest@,
            video_from_base,
            audio_from_base,
            overwrite,
        ),
{
    let mut args: Vec<String> = Vec::new();
    push_str(&mut args, overwrite_arg(overwrite));
    push_str(&mut args, "-i");
    push_str(&mut args, base);
    push_str(&mut args, "-i");
    push_str(&mut args, content);
    let ghost a0 = seq![overwrite_flag(overwrite), "-i"@, base@, "-i"@, content@];
    assert(strs(args@) =~= a0);
    if !video_from_base {
        push_str(&mut args, "-map");
        push_str(&mut args, "1:v");
    }
    let ghost a1 = if video_from_base {
        a0
    } else {
        a0 + seq!["-map"@, "1:v"@]
    };
    assert(strs(args@) =~= a1);
    if !audio_from_base {
        push_str(&mut args, "-map");
        push_str(&mut args, "1:a");
    }
    let ghost a2 = if audio_from_base {
        a1
    } else {
        a1 + seq!["-map"@, "1:a"@]
    };
    assert(strs(args@) =~= a2);
    push_str(&mut args, "-map");
    push_str(&mut args, "0");
    push_str(&mut args, "-map_metadata");
    push_str(&mut args, "0");
    let ghost a3 = a2 + seq!["-map"@, "0"@, "-map_metadata"@, "0"@];
    assert(strs(args@) =~= a3);
    if !video_from_base {
        push_str(&mut args, "-map");
        push_str(&mut args, "-0:v");
    }
    let ghost a4 = if video_from_base {
        a3
    } else {
        a3 + seq!["-map"@, "-0:v"@]
    };
    assert(strs(args@) =~= a4);
    if !audio_from_base {
        push_str(&mut args, "-map");
        push_str(&mut args, "-0:a");
    }
    let ghost a5 = if audio_from_base {
        a4
    } else {
        a4 + seq!["-map"@, "-0:a"@]
    };
    assert(strs(args@) =~= a5);
    push_str(&mut args, "-c");
    push_str(&mut args, "copy");
    push_str(&mut args, dest);
    assert(strs(args@) =~= a5 + seq!["-c"@, "copy"@, dest@]);
    args
}

/// What a merge of two directories comes to.
pub enum MergePlan {
    /// The two lists differ in length: nothing is to be done.
    Mismatch { base: usize, content: usize },
    /// One job for each pair of files.
    Jobs(Vec<Job>),
}

/// Why a merge could not be planned.
pub enum MergeError {
    /// The file at `index` whose name the output was to take has none.
    NoFileName { index: usize },
}

/// The file whose name the output of pair `i` takes.
pub open spec fn name_source(
    base_files: Seq<SourceFile>,
    content_files: Seq<SourceFile>,
    use_content_names: bool,
    i: int,
) -> SourceFile {
    if use_content_names {
        content_files[i]
    } else {
        base_files[i]
    }
}

/// The name that the output of pair `i` takes, if its source has one.
pub open spec fn pair_name(
    base_files: Seq<SourceFile>,
    content_files: Seq<SourceFile>,
    use_content_names: bool,
    i: int,
) -> Option<Seq<char>> {
    file_name_of(strs(name_source(base_files, content_files, use_content_names, i).parts@))
}

/// `job` merges `base` with `content` into the file named `name` below `dest`.
pub open spec fn merge_job_ok(
    job: Job,
    base: SourceFile,
    content: SourceFile,
    name: Option<Seq<char>>,
    dest: Seq<Seq<char>>,
    video_from_base: bool,
    audio_from_base: bool,
    overwrite: bool,
    quiet: bool,
) -> bool {
    &&& name is Some
    &&& strs(job.output_parts@) == dest.push(name->0)
    &&& job.invocation.quiet == quiet
    &&& job.invocation.arg_seq() == merge_args_spec(
        base.path@,
        content.path@,
        job.output@,
        video_from_base,
        audio_from_base,
        overwrite,
    )
}

/// Plans the merge of two aligned file lists into the directory `dest`.
///
/// Lists of different lengths give no job at all. Otherwise pair `i` gives
/// job `i`, which reads exactly `base_files[i]` and `content_files[i]` and
/// writes below `dest` under the name of one of the two. The first file that
/// lacks a name stops the planning.
pub fn run(
    base_files: &Vec<SourceFile>,
    content_files: &Vec<SourceFile>,
    dest: &Vec<String>,
    video_from_base: bool,
    audio_from_base: bool,
    use_content_names: bool,
    overwrite: bool,
    quiet: bool,
) -> (r: Result<MergePlan, MergeError>)
    ensures
        match r {
            Ok(MergePlan::Mismatch { base, content }) => {
                &&& base_files.len() != content_files.len()
                &&& base == base_files.len()
                &&& content == content_files.len()
            },
            Ok(MergePlan::Jobs(jobs)) => {
                &&& base_files.len() == content_files.len()
                &&& jobs.len() == base_files.len()
                &&& forall|i: int|
                    0 <= i < jobs.len() ==> merge_job_ok(
                        #[trigger] jobs[i],
                        base_files[i],
                        content_files[i],
                        pair_name(base_files@, content_files@, use_content_names, i),
                        strs(dest@),
                        video_from_base,
                        audio_from_base,
                        overwrite,
                        quiet,
                    )
            },
            Err(MergeError::NoFileName { index }) => {
                &&& base_files.len() == content_files.len()
                &&& index < base_files.len()
                &&& pair_name(base_files@, content_files@, use_content_names, index as int) is None
                &&& forall|i: int|
                    0 <= i < index ==> (#[trigger] pair_name(
                        base_files@,
                        content_files@,
                        use_content_names,
                        i,
                    )) is Some
            },
        },
{
    if base_files.len() != content_files.len() {
        return Ok(MergePlan::Mismatch { base: base_files.len(), content: content_files.len() });
    }
    let mut jobs: Vec<Job> = Vec::new();
    let mut i: usize = 0;
    while i < base_files.len()
        invariant
            base_files.len() == content_files.len(),
            i <= base_files.len(),
            jobs.len() == i,
            forall|j: int|
                0 <= j < i ==> merge_job_ok(
                    #[trigger] jobs[j],
                    base_files[j],
                    content_files[j],
                    pair_name(base_files@, content_files@, use_content_names, j),
                    strs(dest@),
                    video_from_base,
                    audio_from_base,
                    overwrite,
                    quiet,
                ),
            forall|j: int|
                0 <= j < i ==> (#[trigger] pair_name(
                    base_files@,
                    content_files@,
                    use_content_names,
                    j,
                )) is Some,
        decreases base_files.len() - i,
    {
        let base = &base_files[i];
        let content = &content_files[i];
        let source = if use_content_names {
            content
        } else {
            base
        };
        let name = match file_name(&source.parts) {
            Some(n) => n,
            None => {
                return Err(MergeError::NoFileName { index: i });
            },
        };
        let mut output_parts = clone_strs(dest);
        push_str(&mut output_parts, name.as_str());
        let output = render_path(&output_parts);
        let args = merge_args(
            base.path.as_str(),
            content.path.as_str(),
            output.as_str(),
            video_from_base,
            audio_from_base,
            overwrite,
        );
        jobs.push(Job { output_parts, output, invocation: EngineInvocation { args, quiet } });
        i += 1;
    }
    Ok(MergePlan::Jobs(jobs))
}

} // verus!
