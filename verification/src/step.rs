//! Per-step data: the planner's immutable output and the executor's mutable
//! outcome.

use vstd::prelude::*;

verus! {

/// The lifecycle of one step: created `Pending`, moved to `Running` on entry
/// to the executor, then to exactly one of `Done` or `Failed`.
#[derive(Debug, Clone, Copy, PartialEq, Eq, Structural)]
pub enum EStatus {
    Pending,
    Running,
    Done,
    Failed,
}

/// One planned step: the step line verbatim, the ordered shell scripts to
/// run, and the rendered commit message.  Constructed once by the planner and
/// never mutated.
#[derive(Debug)]
pub struct StepRequest {
    pub run: String,
    pub run_resolved: Vec<String>,
    pub commit_msg: String,
}

/// The outcome of one step: the short revision of the commit (set only when
/// the step is done), the status, and the accumulated output of its scripts.
#[derive(Debug)]
pub struct StepResponse {
    pub sha: Option<String>,
    pub status: EStatus,
    pub output: Option<String>,
}

impl StepResponse {
    /// Appends `text` to the accumulated output, starting it when empty and
    /// otherwise separating from what came before with a line break.
    pub fn push_output_str(&mut self, text: &str)
        ensures
            final(self).sha == old(self).sha,
            final(self).status == old(self).status,
            final(self).output is Some,
            match old(self).output {
                None => final(self).output.unwrap()@ == text@,
                Some(prev) => final(self).output.unwrap()@ == prev@ + seq!['\n'] + text@,
            },
    {
        match &self.output {
            None => {
                self.output = Some(text.to_owned());
            },
            Some(prev) => {
                let mut joined = prev.clone();
                joined.append("\n");
                joined.append(text);
                proof {
                    reveal_strlit("\n");
                    assert(joined@ =~= old(self).output.unwrap()@ + seq!['\n'] + text@);
                }
                self.output = Some(joined);
            },
        }
    }
}

} // verus!
