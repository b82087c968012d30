use don::client::CompletionError;
use don::config::{Completions, ParamKind, ParamValidate, Task, TaskParam};
use don::form::{CandidateState, Field, FormState};

fn task_with(params: Vec<TaskParam>) -> Task {
    Task { interactive: false, params }
}

fn string_param(name: &str) -> TaskParam {
    TaskParam {
        name: name.into(),
        prompt: None,
        required: false,
        default: None,
        kind: ParamKind::Text,
        choices: vec![],
        completions: None,
        validate: None,
    }
}

#[test]
fn new_returns_none_for_empty_params() {
    assert!(FormState::new("t", &task_with(vec![])).is_none());
}

#[test]
fn new_seeds_defaults_and_static_choices() {
    let task = task_with(vec![
        TaskParam {
            default: Some("hello".into()),
            ..string_param("a")
        },
        TaskParam {
            choices: vec!["x".into(), "y".into()],
            kind: ParamKind::Choice,
            ..string_param("b")
        },
    ]);
    let form = FormState::new("t", &task).unwrap();
    assert_eq!(form.fields[0].value, "hello");
    assert_eq!(form.fields[1].value, "");
    match &form.fields[1].candidates {
        CandidateState::Static(v) => assert_eq!(v, &vec!["x".to_string(), "y".to_string()]),
        other => panic!("expected Static, got {other:?}"),
    }
}

#[test]
fn focus_wraps() {
    let task = task_with(vec![string_param("a"), string_param("b")]);
    let mut form = FormState::new("t", &task).unwrap();
    form.focus_next();
    assert_eq!(form.focus, 1);
    form.focus_next();
    assert_eq!(form.focus, 0);
    form.focus_prev();
    assert_eq!(form.focus, 1);
}

#[test]
fn submit_requires_required_fields() {
    let task = task_with(vec![TaskParam {
        required: true,
        ..string_param("a")
    }]);
    let form = FormState::new("t", &task).unwrap();
    let err = form.submit().unwrap_err();
    assert!(err.contains("required"), "{err}");
}

#[test]
fn submit_skips_empty_optional_fields() {
    let task = task_with(vec![string_param("a"), string_param("b")]);
    let mut form = FormState::new("t", &task).unwrap();
    form.fields[0].value = "hi".into();
    let got = form.submit().unwrap();
    assert_eq!(got.get("a").unwrap(), "hi");
    assert!(got.get("b").is_none());
}

#[test]
fn submit_validates_int_bounds() {
    let task = task_with(vec![TaskParam {
        kind: ParamKind::Int,
        validate: Some(ParamValidate {
            min: Some(1),
            max: Some(10),
        }),
        ..string_param("n")
    }]);
    let mut form = FormState::new("t", &task).unwrap();

    form.fields[0].value = "5".into();
    assert!(form.submit().is_ok());

    form.fields[0].value = "0".into();
    assert!(form.submit().unwrap_err().contains(">= 1"));

    form.fields[0].value = "11".into();
    assert!(form.submit().unwrap_err().contains("<= 10"));

    form.fields[0].value = "abc".into();
    assert!(form.submit().unwrap_err().contains("integer"));
}

#[test]
fn submit_enforces_static_choices() {
    let task = task_with(vec![TaskParam {
        kind: ParamKind::Choice,
        choices: vec!["a".into(), "b".into()],
        ..string_param("c")
    }]);
    let mut form = FormState::new("t", &task).unwrap();
    form.fields[0].value = "z".into();
    assert!(form.submit().unwrap_err().contains("one of"));

    form.fields[0].value = "a".into();
    assert_eq!(form.submit().unwrap().get("c").unwrap(), "a");
}

#[test]
fn int_stepper_clamps_to_bounds() {
    let task = task_with(vec![TaskParam {
        kind: ParamKind::Int,
        validate: Some(ParamValidate {
            min: Some(0),
            max: Some(3),
        }),
        default: Some("2".into()),
        ..string_param("n")
    }]);
    let mut form = FormState::new("t", &task).unwrap();
    form.fields[0].step_int(10);
    assert_eq!(form.fields[0].value, "3");
    form.fields[0].step_int(-99);
    assert_eq!(form.fields[0].value, "0");
}

#[test]
fn bool_toggle_round_trips() {
    let task = task_with(vec![TaskParam {
        kind: ParamKind::Bool,
        ..string_param("b")
    }]);
    let mut form = FormState::new("t", &task).unwrap();
    form.fields[0].toggle_bool();
    assert_eq!(form.fields[0].value, "true");
    form.fields[0].toggle_bool();
    assert_eq!(form.fields[0].value, "false");
}

#[test]
fn apply_completions_drops_stale_replies() {
    let task = task_with(vec![TaskParam {
        completions: Some(Completions { cmd: "ls".into(), args: vec![] }),
        ..string_param("x")
    }]);
    let mut form = FormState::new("t", &task).unwrap();
    let id1 = form.start_request("x");
    let id2 = form.start_request("x");
    form.apply_completions("x", id1, Ok(vec!["stale".into()]));
    assert!(matches!(form.fields[0].candidates, CandidateState::Loading));
    form.apply_completions("x", id2, Ok(vec!["fresh".into()]));
    match &form.fields[0].candidates {
        CandidateState::Loaded(v) => assert_eq!(v, &vec!["fresh".to_string()]),
        other => panic!("expected Loaded, got {other:?}"),
    }
}

#[test]
fn apply_completions_failure_is_applied() {
    let task = task_with(vec![TaskParam {
        completions: Some(Completions { cmd: "false".into(), args: vec![] }),
        ..string_param("x")
    }]);
    let mut form = FormState::new("t", &task).unwrap();
    let id = form.start_request("x");
    form.apply_completions(
        "x",
        id,
        Err(CompletionError {
            message: "exit 1".into(),
            log_path: Some("/tmp/log".into()),
        }),
    );
    match &form.fields[0].candidates {
        CandidateState::Failed { message, log_path } => {
            assert_eq!(message, "exit 1");
            assert_eq!(log_path.as_deref(), Some("/tmp/log"));
        }
        other => panic!("expected Failed, got {other:?}"),
    }
}

#[test]
fn visible_candidates_filters_by_value() {
    let mut field = Field::from_param(&TaskParam {
        choices: vec!["alpha".into(), "beta".into(), "gamma".into()],
        ..string_param("x")
    });
    assert_eq!(field.visible_candidates().len(), 3);
    field.value = "a".into();
    let got = field.visible_candidates();
    let mut sorted = got;
    sorted.sort();
    assert_eq!(sorted, vec!["alpha", "beta", "gamma"]);
    field.value = "be".into();
    let got = field.visible_candidates();
    assert!(got.iter().any(|s| s == "beta"));
    assert!(!got.iter().any(|s| s == "gamma"));
}

#[test]
fn visible_candidate_window_scrolls_with_highlight() {
    let mut field = Field::from_param(&TaskParam {
        choices: vec![
            "a0".into(),
            "a1".into(),
            "a2".into(),
            "a3".into(),
            "a4".into(),
            "a5".into(),
            "a6".into(),
        ],
        ..string_param("x")
    });
    field.candidate_highlight = 5;

    let got = field.visible_candidate_window(5);
    assert_eq!(got.items, vec!["a1", "a2", "a3", "a4", "a5"]);
    assert_eq!(got.highlight, 4);
    assert_eq!(got.hidden_above, 1);
    assert_eq!(got.hidden_below, 1);
}

#[test]
fn accept_highlighted_candidate_uses_full_filtered_list() {
    let mut field = Field::from_param(&TaskParam {
        choices: vec![
            "alpha".into(),
            "beta".into(),
            "gamma".into(),
            "delta".into(),
            "zeta".into(),
            "theta".into(),
        ],
        ..string_param("x")
    });
    field.candidate_highlight = 5;

    field.accept_highlighted_candidate();

    assert_eq!(field.value, "theta");
}

#[test]
fn stepping_what_is_no_number_does_nothing() {
    let mut field = Field::from_param(&TaskParam {
        kind: ParamKind::Int,
        ..string_param("n")
    });
    field.value = "many".into();
    field.step_int(1);
    assert_eq!(field.value, "many");
    field.value = "41".into();
    field.step_int(1);
    assert_eq!(field.value, "42");
    field.value = i64::MAX.to_string();
    field.step_int(1);
    assert_eq!(field.value, i64::MAX.to_string(), "it stops at its largest value");
}

#[test]
fn moving_on_and_back_ends_where_it_began() {
    let task = task_with(vec![string_param("a"), string_param("b"), string_param("c")]);
    let mut form = FormState::new("t", &task).unwrap();
    for start in 0..3 {
        form.focus = start;
        form.focus_next();
        form.focus_prev();
        assert_eq!(form.focus, start);
        form.focus_prev();
        form.focus_next();
        assert_eq!(form.focus, start);
    }
}

#[test]
fn a_reply_nobody_asked_for_is_ignored() {
    let task = task_with(vec![string_param("x")]);
    let mut form = FormState::new("t", &task).unwrap();
    form.apply_completions("x", 7, Ok(vec!["late".into()]));
    assert!(matches!(form.fields[0].candidates, CandidateState::Absent));
    assert!(form.focused().is_some());
}
