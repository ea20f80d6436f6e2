use std::cell::RefCell;
use std::rc::Rc;

use mend::run::{run_all_steps, run_step, Executor, Notify, Repo, ScriptOutput};
use mend::step::{EStatus, StepRequest, StepResponse};

struct TestLogger {
    messages: Vec<String>,
}

impl TestLogger {
    fn log(&mut self, msg: String) {
        self.messages.push(msg)
    }
}

struct FakeRepo {
    logger: Rc<RefCell<TestLogger>>,
}

impl Repo for FakeRepo {
    fn commit_all(&mut self, message: &str) -> Result<(), String> {
        self.logger
            .borrow_mut()
            .log(format!("Repo commit all with msg '{}'", message));
        Ok(())
    }

    fn reset_hard(&mut self) -> Result<(), String> {
        self.logger.borrow_mut().log("Repo reset hard".to_string());
        Ok(())
    }

    fn current_short_sha(&self) -> Result<String, String> {
        Ok("..SHA..".to_string())
    }

    fn dir(&self) -> &str {
        "some_path"
    }
}

struct FakeExecutor {
    logger: Rc<RefCell<TestLogger>>,
    succeed: bool,
}

impl Executor for FakeExecutor {
    fn run_script(&mut self, _cwd: &str, script: &str) -> Result<ScriptOutput, String> {
        self.logger
            .borrow_mut()
            .log(format!("Executor run script:\n{}\n", script));
        Ok(ScriptOutput {
            success: self.succeed,
            stdout: String::new(),
            stderr: String::new(),
        })
    }
}

struct FakeNotifier {
    logger: Rc<RefCell<TestLogger>>,
}

impl Notify for FakeNotifier {
    fn notify(&mut self, i: usize, _run: &str, status: &EStatus, _sha: &Option<String>, inc: bool) {
        self.logger
            .borrow_mut()
            .log(format!("Notify step {} status {:?} inc {}", i, status, inc))
    }

    fn notify_done(&self) {
        self.logger.borrow_mut().log("Notify done".to_string())
    }

    fn notify_failure(&self, _step_request: &StepRequest, _step_response: &StepResponse) {
        self.logger.borrow_mut().log("Notify failure".to_string())
    }
}

fn three_scripts() -> Vec<String> {
    vec![
        "..before..".to_string(),
        "..cmd..".to_string(),
        "..after..".to_string(),
    ]
}

#[test]
fn run_step_reports_success_and_commits() {
    let scripts = three_scripts();
    let mut step_response = StepResponse {
        sha: None,
        status: EStatus::Pending,
        output: None,
    };
    let step_request = StepRequest {
        run: "cmd".to_string(),
        run_resolved: scripts.clone(),
        commit_msg: "..msg..".to_string(),
    };

    let logger_rc = Rc::new(RefCell::new(TestLogger { messages: vec![] }));
    let mut repo: FakeRepo = FakeRepo {
        logger: logger_rc.clone(),
    };
    let mut executor = FakeExecutor {
        logger: logger_rc.clone(),
        succeed: true,
    };
    let mut notifier = FakeNotifier {
        logger: logger_rc.clone(),
    };
    run_step(
        &mut repo,
        &mut executor,
        &mut notifier,
        1,
        &step_request,
        &mut step_response,
    );
    assert_eq!(step_response.status, EStatus::Done);
    let messages = logger_rc.borrow().messages.clone();
    assert_eq!(
        messages,
        vec![
            "Notify step 1 status Running inc true".to_string(),
            "Executor run script:\n..before..\n".to_string(),
            "Notify step 1 status Running inc true".to_string(),
            "Executor run script:\n..cmd..\n".to_string(),
            "Notify step 1 status Running inc true".to_string(),
            "Executor run script:\n..after..\n".to_string(),
            "Repo commit all with msg '..msg..'".to_string(),
            "Notify step 1 status Done inc true".to_string(),
        ]
    );
    assert_eq!(step_response.sha, Some("..SHA..".to_string()));
}

#[test]
fn run_step_reports_failure_and_resets() {
    let scripts = three_scripts();
    let step_request = StepRequest {
        run: "cmd".to_string(),
        run_resolved: scripts.clone(),
        commit_msg: "..msg..".to_string(),
    };
    let mut step_response = StepResponse {
        sha: None,
        status: EStatus::Pending,
        output: None,
    };

    let logger_rc = Rc::new(RefCell::new(TestLogger { messages: vec![] }));
    run_step(
        &mut FakeRepo {
            logger: logger_rc.clone(),
        },
        &mut FakeExecutor {
            logger: logger_rc.clone(),
            succeed: false,
        },
        &mut FakeNotifier {
            logger: logger_rc.clone(),
        },
        1,
        &step_request,
        &mut step_response,
    );
    assert_eq!(step_response.status, EStatus::Failed);
    let messages = logger_rc.borrow().messages.clone();
    assert_eq!(
        messages,
        vec![
            "Notify step 1 status Running inc true".to_string(),
            "Executor run script:\n..before..\n".to_string(),
            "Notify step 1 status Failed inc false".to_string(),
            "Repo reset hard".to_string(),
            "Notify step 1 status Failed inc false".to_string(),
        ]
    );
    for message in &messages {
        assert!(!message.contains("commit"));
    }
    assert_eq!(step_response.sha, None);
}

#[test]
fn run_all_steps_reports_ok_when_steps_pass() {
    let scripts = three_scripts();
    let step_request = StepRequest {
        run: "cmd".to_string(),
        run_resolved: scripts.clone(),
        commit_msg: "..msg..".to_string(),
    };
    let logger_rc = Rc::new(RefCell::new(TestLogger { messages: vec![] }));
    let step_requests = vec![step_request];
    let result = run_all_steps(
        step_requests,
        &mut FakeNotifier {
            logger: logger_rc.clone(),
        },
        &mut FakeRepo {
            logger: logger_rc.clone(),
        },
        &mut FakeExecutor {
            logger: logger_rc.clone(),
            succeed: true,
        },
    );
    assert!(result.is_ok());
}

#[test]
fn run_all_steps_reports_failure_with_failed_step() {
    let scripts = three_scripts();
    let step_request = StepRequest {
        run: "cmd".to_string(),
        run_resolved: scripts.clone(),
        commit_msg: "..msg..".to_string(),
    };
    let logger_rc = Rc::new(RefCell::new(TestLogger { messages: vec![] }));
    let mut repo: FakeRepo = FakeRepo {
        logger: logger_rc.clone(),
    };
    let mut executor = FakeExecutor {
        logger: logger_rc.clone(),
        succeed: false,
    };
    let mut notifier = FakeNotifier {
        logger: logger_rc.clone(),
    };
    let step_requests = vec![step_request];
    let result = run_all_steps(step_requests, &mut notifier, &mut repo, &mut executor);
    assert!(result.is_err());
    let (failed_step_request, failed_step_response) = result.err().unwrap();
    assert_eq!(failed_step_request.run, "cmd".to_string());
    assert_eq!(failed_step_response.status, EStatus::Failed);
    let messages = logger_rc.borrow().messages.clone();
    for message in &messages {
        assert!(!message.contains("commit"));
    }
    assert_eq!(failed_step_response.sha, None);
}

#[test]
fn failure_on_first_step_halts_the_pipeline() {
    let first = StepRequest {
        run: "a".to_string(),
        run_resolved: vec!["a\n".to_string()],
        commit_msg: "a".to_string(),
    };
    let second = StepRequest {
        run: "b".to_string(),
        run_resolved: vec!["b\n".to_string()],
        commit_msg: "b".to_string(),
    };
    let logger_rc = Rc::new(RefCell::new(TestLogger { messages: vec![] }));
    let result = run_all_steps(
        vec![first, second],
        &mut FakeNotifier {
            logger: logger_rc.clone(),
        },
        &mut FakeRepo {
            logger: logger_rc.clone(),
        },
        &mut FakeExecutor {
            logger: logger_rc.clone(),
            succeed: false,
        },
    );
    assert!(result.is_err());
    let (failed_step_request, failed_step_response) = result.err().unwrap();
    assert_eq!(failed_step_request.run, "a".to_string());
    assert_eq!(failed_step_response.status, EStatus::Failed);
    assert_eq!(failed_step_response.sha, None);
    let messages = logger_rc.borrow().messages.clone();
    let resets = messages
        .iter()
        .filter(|m| m.as_str() == "Repo reset hard")
        .count();
    assert_eq!(resets, 1);
    for message in &messages {
        assert!(!message.contains("b\n"));
        assert!(!message.contains("commit"));
    }
}

#[test]
fn empty_step_list_runs_no_scripts() {
    let logger_rc = Rc::new(RefCell::new(TestLogger { messages: vec![] }));
    let result = run_all_steps(
        vec![],
        &mut FakeNotifier {
            logger: logger_rc.clone(),
        },
        &mut FakeRepo {
            logger: logger_rc.clone(),
        },
        &mut FakeExecutor {
            logger: logger_rc.clone(),
            succeed: true,
        },
    );
    assert!(result.is_ok());
    assert_eq!(logger_rc.borrow().messages.len(), 0);
}

#[test]
fn single_planned_step_executes_and_commits() {
    let mend = mend::model::Mend {
        from: None,
        includes: vec![],
        env: vec![],
        recipes: vec![],
        hooks: vec![],
        steps: vec!["echo hi".to_string()],
    };
    let step_requests = mend::plan::create_run_status_from_mend(&mend, &vec![]);
    assert_eq!(step_requests.len(), 1);
    assert_eq!(step_requests[0].run_resolved, vec!["echo hi\n".to_string()]);
    assert_eq!(step_requests[0].commit_msg, "echo hi");

    let logger_rc = Rc::new(RefCell::new(TestLogger { messages: vec![] }));
    let mut step_response = StepResponse {
        sha: None,
        status: EStatus::Pending,
        output: None,
    };
    run_step(
        &mut FakeRepo {
            logger: logger_rc.clone(),
        },
        &mut FakeExecutor {
            logger: logger_rc.clone(),
            succeed: true,
        },
        &mut FakeNotifier {
            logger: logger_rc.clone(),
        },
        0,
        &step_requests[0],
        &mut step_response,
    );
    assert_eq!(step_response.status, EStatus::Done);
    assert_eq!(step_response.sha, Some("..SHA..".to_string()));
    let messages = logger_rc.borrow().messages.clone();
    assert!(messages.contains(&"Repo commit all with msg 'echo hi'".to_string()));
}

#[test]
fn push_output_str_starts_and_joins_lines() {
    let mut response = StepResponse {
        sha: None,
        status: EStatus::Pending,
        output: None,
    };
    response.push_output_str("first");
    assert_eq!(response.output, Some("first".to_string()));
    response.push_output_str("second");
    assert_eq!(response.output, Some("first\nsecond".to_string()));
    assert_eq!(response.status, EStatus::Pending);
    assert_eq!(response.sha, None);
}

struct ErrorExecutor {
    logger: Rc<RefCell<TestLogger>>,
}

impl Executor for ErrorExecutor {
    fn run_script(&mut self, _cwd: &str, script: &str) -> Result<ScriptOutput, String> {
        self.logger
            .borrow_mut()
            .log(format!("Executor run script:\n{}\n", script));
        Err("no shell".to_string())
    }
}

struct FailingCommitRepo {
    logger: Rc<RefCell<TestLogger>>,
}

impl Repo for FailingCommitRepo {
    fn commit_all(&mut self, message: &str) -> Result<(), String> {
        self.logger
            .borrow_mut()
            .log(format!("Repo commit all with msg '{}'", message));
        Err("nothing to commit".to_string())
    }

    fn reset_hard(&mut self) -> Result<(), String> {
        self.logger.borrow_mut().log("Repo reset hard".to_string());
        Ok(())
    }

    fn current_short_sha(&self) -> Result<String, String> {
        Ok("..SHA..".to_string())
    }

    fn dir(&self) -> &str {
        "some_path"
    }
}

#[test]
fn run_step_handles_executor_error() {
    let step_request = StepRequest {
        run: "cmd".to_string(),
        run_resolved: three_scripts(),
        commit_msg: "..msg..".to_string(),
    };
    let mut step_response = StepResponse {
        sha: None,
        status: EStatus::Pending,
        output: None,
    };
    let logger_rc = Rc::new(RefCell::new(TestLogger { messages: vec![] }));
    run_step(
        &mut FakeRepo {
            logger: logger_rc.clone(),
        },
        &mut ErrorExecutor {
            logger: logger_rc.clone(),
        },
        &mut FakeNotifier {
            logger: logger_rc.clone(),
        },
        0,
        &step_request,
        &mut step_response,
    );
    assert_eq!(step_response.status, EStatus::Failed);
    assert_eq!(step_response.sha, None);
    assert!(step_response
        .output
        .as_ref()
        .unwrap()
        .contains("Failed to run\nno shell"));
    let messages = logger_rc.borrow().messages.clone();
    assert!(messages.contains(&"Repo reset hard".to_string()));
    for message in &messages {
        assert!(!message.contains("commit"));
    }
}

#[test]
fn run_step_commit_failure_marks_step_failed_without_reset() {
    let step_request = StepRequest {
        run: "cmd".to_string(),
        run_resolved: vec!["..cmd..".to_string()],
        commit_msg: "..msg..".to_string(),
    };
    let mut step_response = StepResponse {
        sha: None,
        status: EStatus::Pending,
        output: None,
    };
    let logger_rc = Rc::new(RefCell::new(TestLogger { messages: vec![] }));
    run_step(
        &mut FailingCommitRepo {
            logger: logger_rc.clone(),
        },
        &mut FakeExecutor {
            logger: logger_rc.clone(),
            succeed: true,
        },
        &mut FakeNotifier {
            logger: logger_rc.clone(),
        },
        0,
        &step_request,
        &mut step_response,
    );
    assert_eq!(step_response.status, EStatus::Failed);
    assert_eq!(step_response.sha, None);
    assert!(step_response
        .output
        .as_ref()
        .unwrap()
        .contains("nothing to commit"));
    let messages = logger_rc.borrow().messages.clone();
    assert!(messages.contains(&"Repo commit all with msg '..msg..'".to_string()));
    assert!(!messages.contains(&"Repo reset hard".to_string()));
}
