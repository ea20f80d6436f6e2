//! The per-step execution state machine and the step loop.
//!
//! A step enters `Running`, its scripts run strictly in order, and the step
//! ends in exactly one of `Done` or `Failed`: all scripts succeeding leads to
//! one commit attempt; any script failing halts the step, triggers a
//! best-effort reset of the worktree, and precludes the commit.  Each call
//! returns a ghost trace of the repository actions taken, so the failure
//! semantics are stated — and proved — over every executor and repository.

use vstd::prelude::*;

use crate::step::{EStatus, StepRequest, StepResponse};

verus! {

/// What one script run produced: whether the shell exited successfully, and
/// its captured output streams.
#[derive(Debug)]
pub struct ScriptOutput {
    pub success: bool,
    pub stdout: String,
    pub stderr: String,
}

/// A repository of revisions: commit everything, restore the committed
/// state, name the current revision, and say where scripts must run.
pub trait Repo {
    fn commit_all(&mut self, message: &str) -> Result<(), String>;

    fn reset_hard(&mut self) -> Result<(), String>;

    fn current_short_sha(&self) -> Result<String, String>;

    fn dir(&self) -> &str;
}

/// Runs a single script string in a given directory.
pub trait Executor {
    fn run_script(&mut self, cwd: &str, script: &str) -> Result<ScriptOutput, String>;
}

/// Receives per-step progress events; implementations are best-effort.
pub trait Notify {
    fn notify(&mut self, i: usize, run: &str, status: &EStatus, sha: &Option<String>, inc: bool);

    fn notify_done(&self);

    fn notify_failure(&self, failed_request: &StepRequest, failed_response: &StepResponse);
}

/// One recorded repository-affecting action of a step run.
pub enum StepEvent {
    RanScript { ok: bool },
    Committed { ok: bool },
    ResetHard,
}

/// A run of `n` scripts that all succeeded.
pub open spec fn ok_run(n: int) -> Seq<StepEvent> {
    Seq::new(n as nat, |k: int| StepEvent::RanScript { ok: true })
}

/// The trace of a step whose scripts all succeeded, followed by one commit
/// attempt with the given outcome.
pub open spec fn commit_trace(n: int, commit_ok: bool) -> Seq<StepEvent> {
    ok_run(n) + seq![StepEvent::Committed { ok: commit_ok }]
}

/// The trace of a step halted by its `m`-th script: the earlier scripts
/// succeeded, the failing one ran, and the worktree was reset.
pub open spec fn halted_trace(m: int) -> Seq<StepEvent> {
    ok_run(m) + seq![StepEvent::RanScript { ok: false }, StepEvent::ResetHard]
}

/// Runs one planned step to completion, mutating `step_response` in place
/// and emitting progress events.  The returned ghost trace records the
/// repository actions taken, in order: it shows that a commit is attempted
/// exactly when every script succeeded, and that a failing script leads to a
/// reset instead.
pub fn run_step<R: Repo, E: Executor, N: Notify>(
    repo: &mut R,
    executor: &mut E,
    notifier: &mut N,
    step_i: usize,
    step_request: &StepRequest,
    step_response: &mut StepResponse,
) -> (trace: Ghost<Seq<StepEvent>>)
    requires
        old(step_response).status == EStatus::Pending,
        old(step_response).sha is None,
    ensures
        final(step_response).status == EStatus::Done || final(step_response).status
            == EStatus::Failed,
        final(step_response).sha is Some ==> final(step_response).status == EStatus::Done,
        final(step_response).status == EStatus::Failed ==> final(step_response).sha is None,
        final(step_response).output is Some,
        final(step_response).status == EStatus::Done <==> trace@ == commit_trace(
            step_request.run_resolved@.len() as int,
            true,
        ),
        final(step_response).status == EStatus::Failed ==> trace@ == commit_trace(
            step_request.run_resolved@.len() as int,
            false,
        ) || (exists|m: int|
            0 <= m < step_request.run_resolved@.len() && trace@ == halted_trace(m)),
        (exists|i: int|
            0 <= i < trace@.len() && trace@[i] == (StepEvent::RanScript { ok: false })) ==> (forall|
            j: int,
        |
            0 <= j < trace@.len() ==> !(#[trigger] trace@[j] is Committed)),
{
    let ghost mut trace: Seq<StepEvent> = Seq::empty();
    step_response.status = EStatus::Running;
    let n = step_request.run_resolved.len();
    let mut k: usize = 0;
    let mut failed = false;
    while k < n && !failed
        invariant
            n == step_request.run_resolved@.len(),
            0 <= k <= n,
            step_response.sha is None,
            !failed ==> step_response.status == EStatus::Running && trace == ok_run(k as int),
            failed ==> step_response.status == EStatus::Failed && k < n && trace == ok_run(k as int)
                + seq![StepEvent::RanScript { ok: false }],
            failed ==> step_response.output is Some,
        decreases n - k + (if failed {
            0int
        } else {
            1int
        }),
    {
        notifier.notify(
            step_i,
            step_request.run.as_str(),
            &step_response.status,
            &step_response.sha,
            true,
        );
        let script = &step_request.run_resolved[k];
        let mut banner = String::new();
        banner.append("Running\n");
        banner.append(script.as_str());
        banner.append("\n");
        step_response.push_output_str(banner.as_str());
        let output_result = executor.run_script(repo.dir(), script.as_str());
        match output_result {
            Ok(output) => {
                step_response.push_output_str(output.stdout.as_str());
                step_response.push_output_str(output.stderr.as_str());
                if output.success {
                    proof {
                        trace = trace.push(StepEvent::RanScript { ok: true });
                        assert(trace =~= ok_run(k as int + 1));
                    }
                    k = k + 1;
                } else {
                    step_response.status = EStatus::Failed;
                    failed = true;
                    proof {
                        trace = trace.push(StepEvent::RanScript { ok: false });
                        assert(trace =~= ok_run(k as int) + seq![
                            StepEvent::RanScript { ok: false },
                        ]);
                    }
                    notifier.notify(
                        step_i,
                        step_request.run.as_str(),
                        &step_response.status,
                        &step_response.sha,
                        false,
                    );
                }
            },
            Err(e) => {
                let mut diag = String::new();
                diag.append("Failed to run\n");
                diag.append(e.as_str());
                step_response.push_output_str(diag.as_str());
                step_response.status = EStatus::Failed;
                failed = true;
                proof {
                    trace = trace.push(StepEvent::RanScript { ok: false });
                    assert(trace =~= ok_run(k as int) + seq![StepEvent::RanScript { ok: false }]);
                }
                notifier.notify(
                    step_i,
                    step_request.run.as_str(),
                    &step_response.status,
                    &step_response.sha,
                    false,
                );
            },
        }
    }
    if !failed {
        step_response.status = EStatus::Done;
        let mut banner = String::new();
        banner.append("Committing with message '");
        banner.append(step_request.commit_msg.as_str());
        banner.append("'");
        step_response.push_output_str(banner.as_str());
        match repo.commit_all(step_request.commit_msg.as_str()) {
            Ok(_) => {
                proof {
                    trace = trace.push(StepEvent::Committed { ok: true });
                    assert(trace =~= commit_trace(n as int, true));
                }
                match repo.current_short_sha() {
                    Ok(sha) => {
                        step_response.sha = Some(sha);
                    },
                    Err(_) => {},
                }
            },
            Err(err) => {
                step_response.push_output_str(err.as_str());
                step_response.status = EStatus::Failed;
                proof {
                    trace = trace.push(StepEvent::Committed { ok: false });
                    assert(trace =~= commit_trace(n as int, false));
                }
            },
        }
        notifier.notify(
            step_i,
            step_request.run.as_str(),
            &step_response.status,
            &step_response.sha,
            true,
        );
    } else {
        let _ = repo.reset_hard();
        proof {
            trace = trace.push(StepEvent::ResetHard);
            assert(trace =~= halted_trace(k as int));
        }
        notifier.notify(
            step_i,
            step_request.run.as_str(),
            &step_response.status,
            &step_response.sha,
            false,
        );
    }
    proof {
        let good = commit_trace(n as int, true);
        assert(good.len() == n + 1);
        assert(good.last() == (StepEvent::Committed { ok: true }));
        if failed {
            assert(trace == halted_trace(k as int));
            assert(forall|j: int| 0 <= j < trace.len() ==> !(#[trigger] trace[j] is Committed));
            assert(trace.last() == StepEvent::ResetHard);
            assert(trace != good);
        } else {
            assert(forall|i: int|
                0 <= i < trace.len() ==> #[trigger] trace[i] != (StepEvent::RanScript {
                    ok: false,
                }));
            if step_response.status == EStatus::Failed {
                assert(trace.last() == (StepEvent::Committed { ok: false }));
                assert(trace != good);
            }
        }
    }
    Ghost(trace)
}

/// Runs the planned steps in order, stopping at the first failure: the
/// failing request and its response are handed back, and later steps are
/// never started.
pub fn run_all_steps<R: Repo, E: Executor, N: Notify>(
    step_requests: Vec<StepRequest>,
    notifier: &mut N,
    worktree_repo: &mut R,
    executor: &mut E,
) -> (r: Result<(), (StepRequest, StepResponse)>)
    ensures
        match r {
            Ok(_) => true,
            Err((req, resp)) => {
                &&& resp.status == EStatus::Failed
                &&& resp.sha is None
                &&& resp.output is Some
                &&& exists|i: int| 0 <= i < step_requests@.len() && step_requests@[i] == req
            },
        },
{
    let n_total = step_requests.len();
    let mut remaining = step_requests;
    let mut step_i: usize = 0;
    proof {
        assert(remaining@.skip(0) =~= remaining@);
    }
    while remaining.len() > 0
        invariant
            n_total == step_requests@.len(),
            step_i + remaining@.len() == n_total,
            remaining@ == step_requests@.skip(step_i as int),
        decreases remaining@.len(),
    {
        proof {
            assert(step_requests@.skip(step_i as int)[0] == step_requests@[step_i as int]);
            assert(step_requests@.skip(step_i as int).drop_first() =~= step_requests@.skip(
                step_i as int + 1,
            ));
        }
        let step_request = remaining.remove(0);
        let mut step_response = StepResponse { sha: None, status: EStatus::Pending, output: None };
        let _ = run_step(
            worktree_repo,
            executor,
            notifier,
            step_i,
            &step_request,
            &mut step_response,
        );
        step_i = step_i + 1;
        if step_response.status == EStatus::Failed {
            return Err((step_request, step_response));
        }
    }
    Ok(())
}

} // verus!
