use mend::model::{Hook, Mend, Recipe};
use mend::plan::create_run_status_from_mend;

fn create_mend_with_steps(steps: Vec<String>) -> Mend {
    Mend {
        from: None,
        includes: vec![],
        env: vec![],
        recipes: vec![],
        hooks: vec![],
        steps,
    }
}

fn no_env() -> Vec<(String, String)> {
    vec![]
}

#[test]
fn test_create_run_status_empty() {
    let mend = create_mend_with_steps(vec![]);
    let step_requests = create_run_status_from_mend(&mend, &no_env());
    assert_eq!(step_requests.len(), 0);
}

#[test]
fn test_create_run_status_one_step() {
    let mend = create_mend_with_steps(vec!["cmd arg1 arg2".to_string()]);
    let step_requests = create_run_status_from_mend(&mend, &no_env());
    assert_eq!(step_requests.len(), 1);
    let request = &step_requests[0];
    assert_eq!(request.run, "cmd arg1 arg2");
    assert_eq!(request.run_resolved, vec!["cmd arg1 arg2\n".to_string()]);
    assert_eq!(request.commit_msg, "cmd arg1 arg2");
}

#[test]
fn test_create_run_status_resolve_recipe() {
    let mut mend = create_mend_with_steps(vec!["cmd arg1 arg2".to_string()]);

    mend.recipes.push((
        "cmd".to_string(),
        Recipe {
            run: "resolved $1 $2".to_string(),
            commit_template: None,
            tag: None,
            tags: vec![],
        },
    ));
    mend.recipes.push((
        "not_used".to_string(),
        Recipe {
            run: "should not appear!".to_string(),
            commit_template: None,
            tag: None,
            tags: vec![],
        },
    ));
    let step_requests = create_run_status_from_mend(&mend, &no_env());
    assert_eq!(step_requests.len(), 1);
    let request = &step_requests[0];
    assert_eq!(request.run, "cmd arg1 arg2");
    assert_eq!(
        request.run_resolved,
        vec!["function cmd() {\nresolved $1 $2\n}\ncmd arg1 arg2\n".to_string()]
    );
    for script in &request.run_resolved {
        assert!(!script.contains("should not appear!"));
    }
    assert_eq!(request.commit_msg, "cmd arg1 arg2");
}

#[test]
fn create_run_request_with_recipe_commit_template() {
    let mut mend = create_mend_with_steps(vec!["rename arg1 arg2".to_string()]);

    mend.recipes.push((
        "rename".to_string(),
        Recipe {
            run: "rename-cli $1 $2".to_string(),
            commit_template: Some("r - Rename $1 to $2".to_string()),
            tag: None,
            tags: vec![],
        },
    ));
    let step_requests = create_run_status_from_mend(&mend, &no_env());
    assert_eq!(step_requests.len(), 1);
    assert_eq!(
        step_requests.get(0).unwrap().commit_msg,
        "r - Rename arg1 to arg2"
    );
}

#[test]
fn test_create_run_status_include_hooks() {
    let mut mend = create_mend_with_steps(vec!["cmd arg1 arg2".to_string()]);

    let before_step_hook = Hook {
        run: Option::from("echo Hello before".to_string()),
        when_tag: None,
        when_not_tag: None,
    };
    let after_step_hook = Hook {
        run: Option::from("echo Hello after".to_string()),
        when_tag: None,
        when_not_tag: None,
    };
    mend.hooks
        .push(("before_step".to_string(), vec![before_step_hook]));
    mend.hooks
        .push(("after_step".to_string(), vec![after_step_hook]));
    let step_requests = create_run_status_from_mend(&mend, &no_env());
    assert_eq!(step_requests.len(), 1);
    let request = &step_requests[0];
    assert_eq!(
        request.run_resolved,
        vec![
            "echo Hello before".to_string(),
            "cmd arg1 arg2\n".to_string(),
            "echo Hello after".to_string(),
        ]
    );
}

#[test]
fn test_create_run_status_include_hooks_matching_on_tag() {
    let mut mend = create_mend_with_steps(vec!["cmd arg1 arg2".to_string()]);

    let before_hook_tag = Hook {
        run: Option::from("echo Hello before some_tag".to_string()),
        when_tag: Some("some_tag".to_string()),
        when_not_tag: None,
    };
    let before_hook_not_tag = Hook {
        run: Some("echo Hello from before NOT some_tag".to_string()),
        when_tag: None,
        when_not_tag: Some("some_tag".to_string()),
    };
    mend.hooks.push((
        "before_step".to_string(),
        vec![before_hook_tag, before_hook_not_tag],
    ));
    mend.recipes.push((
        "cmd".to_string(),
        Recipe {
            run: "resolved $1 $2".to_string(),
            commit_template: None,
            tag: None,
            tags: vec!["some_tag".to_string()],
        },
    ));
    let step_requests = create_run_status_from_mend(&mend, &no_env());
    assert_eq!(step_requests.len(), 1);
    let request = &step_requests[0];
    assert_eq!(
        request.run_resolved,
        vec![
            "echo Hello before some_tag".to_string(),
            "function cmd() {\nresolved $1 $2\n}\ncmd arg1 arg2\n".to_string(),
        ]
    );
    for script in &request.run_resolved {
        assert!(!script.contains("echo Hello from before NOT some_tag"));
    }
}

#[test]
fn commit_msg_is_trimmed_step_without_recipe() {
    let mend = create_mend_with_steps(vec!["   echo hi   ".to_string()]);
    let step_requests = create_run_status_from_mend(&mend, &no_env());
    assert_eq!(step_requests[0].commit_msg, "echo hi");
    assert_eq!(step_requests[0].run, "   echo hi   ");
    assert_eq!(step_requests[0].run_resolved, vec!["   echo hi   \n".to_string()]);
}

#[test]
fn commit_template_env_reference_resolves_from_bindings() {
    let mut mend = create_mend_with_steps(vec!["greet arg1".to_string()]);
    mend.recipes.push((
        "greet".to_string(),
        Recipe {
            run: "echo $1".to_string(),
            commit_template: Some("greet ${WHO} with $1 and $MISSING".to_string()),
            tag: None,
            tags: vec![],
        },
    ));
    let env = vec![("WHO".to_string(), "world".to_string())];
    let step_requests = create_run_status_from_mend(&mend, &env);
    assert_eq!(
        step_requests[0].commit_msg,
        "greet world with arg1 and $MISSING"
    );
}

#[test]
fn commit_template_braced_default_applies_when_unresolved() {
    let mut mend = create_mend_with_steps(vec!["cmd one".to_string()]);
    mend.recipes.push((
        "cmd".to_string(),
        Recipe {
            run: "run $1".to_string(),
            commit_template: Some("got ${9:-nothing} and ${1:-unused}".to_string()),
            tag: None,
            tags: vec![],
        },
    ));
    let step_requests = create_run_status_from_mend(&mend, &no_env());
    assert_eq!(step_requests[0].commit_msg, "got nothing and one");
}

#[test]
fn commit_template_dollar_escapes_and_out_of_range() {
    let mut mend = create_mend_with_steps(vec!["cmd one".to_string()]);
    mend.recipes.push((
        "cmd".to_string(),
        Recipe {
            run: "run $1".to_string(),
            commit_template: Some("$$ $2 $32768 ${unclosed".to_string()),
            tag: None,
            tags: vec![],
        },
    ));
    let step_requests = create_run_status_from_mend(&mend, &no_env());
    assert_eq!(step_requests[0].commit_msg, "$ $2 $32768 ${unclosed");
}

#[test]
fn planning_is_deterministic() {
    let mut mend = create_mend_with_steps(vec!["cmd arg1 arg2".to_string(), "other".to_string()]);
    mend.recipes.push((
        "cmd".to_string(),
        Recipe {
            run: "resolved $1 $2".to_string(),
            commit_template: Some("c - $1".to_string()),
            tag: None,
            tags: vec!["t".to_string()],
        },
    ));
    let env = vec![("K".to_string(), "v".to_string())];
    let first = create_run_status_from_mend(&mend, &env);
    let second = create_run_status_from_mend(&mend, &env);
    assert_eq!(first.len(), second.len());
    for (a, b) in first.iter().zip(second.iter()) {
        assert_eq!(a.run, b.run);
        assert_eq!(a.run_resolved, b.run_resolved);
        assert_eq!(a.commit_msg, b.commit_msg);
    }
}

#[test]
fn duplicate_recipe_names_first_binding_wins() {
    let mut mend = create_mend_with_steps(vec!["cmd x".to_string()]);
    mend.recipes.push((
        "cmd".to_string(),
        Recipe {
            run: "first".to_string(),
            commit_template: None,
            tag: None,
            tags: vec![],
        },
    ));
    mend.recipes.push((
        "cmd".to_string(),
        Recipe {
            run: "second".to_string(),
            commit_template: None,
            tag: None,
            tags: vec![],
        },
    ));
    let step_requests = create_run_status_from_mend(&mend, &no_env());
    assert_eq!(
        step_requests[0].run_resolved,
        vec!["function cmd() {\nfirst\n}\ncmd x\n".to_string()]
    );
}
