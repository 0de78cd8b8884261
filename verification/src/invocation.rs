//! One call of the media engine, and the job that wraps it.

use vstd::prelude::*;
use crate::text::strs;

verus! {

/// The argument list of one engine process, and whether its diagnostics
/// are to be kept quiet.
pub struct EngineInvocation {
    pub args: Vec<String>,
    pub quiet: bool,
}

impl EngineInvocation {
    /// The arguments as character sequences, in order.
    pub open spec fn arg_seq(&self) -> Seq<Seq<char>> {
        strs(self.args@)
    }
}

/// One unit of work: the invocation, and the file that it writes.
///
/// `output_parts` are the components of the output path; `output` is the
/// same path as the one string that the invocation ends with.
pub struct Job {
    pub output_parts: Vec<String>,
    pub output: String,
    pub invocation: EngineInvocation,
}

/// The engine's first argument: overwrite existing files, or never do.
pub open spec fn overwrite_flag(overwrite: bool) -> Seq<char> {
    if overwrite {
        "-y"@
    } else {
        "-n"@
    }
}

/// The engine's first argument for the given overwrite policy.
pub fn overwrite_arg(overwrite: bool) -> (r: &'static str)
    ensures
        r@ == overwrite_flag(overwrite),
{
    if overwrite {
        "-y"
    } else {
        "-n"
    }
}

} // verus!
