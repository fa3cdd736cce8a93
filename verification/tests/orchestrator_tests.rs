use cfnupd::errors::CfnError;
use cfnupd::orchestrator::{parse_save_answer, Action, Answer, Event, Orchestrator, Phase};
use cfnupd::params::{RawParameter, RawStack};
use cfnupd::status::StatusClass;

fn one_stack_one_parameter() -> Vec<RawStack> {
    vec![RawStack {
        parameters: vec![RawParameter {
            parameter_key: Some("InstanceType".to_string()),
            parameter_value: Some("t3.micro".to_string()),
            use_previous_value: Some(false),
            resolved_value: Some("N/A".to_string()),
        }],
    }]
}

fn drive_until_staged(orch: &mut Orchestrator, template: &str) -> (String, String) {
    let a = orch.step(Event::Start);
    assert!(matches!(a, Action::FetchTemplate));
    let a = orch.step(Event::TemplateFetched { body: Some(template.to_string()) });
    assert!(matches!(a, Action::FetchParameters));
    let a = orch.step(Event::StacksDescribed { stacks: one_stack_one_parameter() });
    match a {
        Action::WriteArtifacts { template, params_text } => (template, params_text),
        _ => panic!("expected the write action"),
    }
}

#[test]
fn scenario_full_update_with_three_polls() {
    // One parameter on the stack, a no-op edit, then a poll sequence of
    // two in-progress statuses and one complete status: exactly three
    // status queries, then the loop exits.
    let mut orch = Orchestrator::new("web-app".to_string(), false, Some(false));
    let (template, params_text) = drive_until_staged(&mut orch, "Resources: {}");
    assert_eq!(template, "Resources: {}");
    assert!(params_text.contains("\"parameter_key\": \"InstanceType\""));
    assert!(params_text.contains("\"parameter_value\": \"t3.micro\""));

    let a = orch.step(Event::ArtifactsWritten);
    assert!(matches!(a, Action::EditArtifacts));
    let a = orch.step(Event::EditorFinished { success: true });
    assert!(matches!(a, Action::ReadArtifacts));

    // the edit step is a no-op: the files read back unchanged
    let a = orch.step(Event::ArtifactsRead {
        params_text: params_text.clone(),
        template: template.clone(),
    });
    match a {
        Action::SubmitUpdate { template, parameters, allow_capabilities } => {
            assert_eq!(template, "Resources: {}");
            assert!(!allow_capabilities);
            assert_eq!(parameters.len(), 1);
            assert_eq!(parameters[0].parameter_key, "InstanceType");
            assert_eq!(parameters[0].parameter_value, "t3.micro");
            assert!(!parameters[0].use_previous_value);
            assert_eq!(parameters[0].resolved_value, "N/A");
        },
        _ => panic!("expected the submit action"),
    }

    let mut queries = 0;
    let a = orch.step(Event::UpdateAccepted);
    assert!(matches!(a, Action::QueryStatus));
    queries += 1;

    let polls = ["UPDATE_IN_PROGRESS", "UPDATE_IN_PROGRESS", "UPDATE_COMPLETE"];
    for (i, status) in polls.iter().enumerate() {
        let a = orch.step(Event::StatusDescribed { statuses: vec![status.to_string()] });
        match a {
            Action::PollAgain { status, class } => {
                assert!(i < 2);
                assert_eq!(status, "UPDATE_IN_PROGRESS");
                assert!(matches!(class, StatusClass::InProgress));
                queries += 1;
            },
            Action::PollDone { status, class } => {
                assert_eq!(i, 2);
                assert_eq!(status, "UPDATE_COMPLETE");
                assert!(matches!(class, StatusClass::Stable));
            },
            _ => panic!("expected a poll action"),
        }
    }
    assert_eq!(queries, 3);

    let a = orch.step(Event::Proceed);
    assert!(matches!(a, Action::Finish { persist_error: None }));
    assert!(matches!(orch.phase, Phase::Finished));
}

#[test]
fn scenario_zero_matching_stacks_aborts() {
    // No matching stack in the describe response: the run aborts with
    // the not-found error before anything is written.
    let mut orch = Orchestrator::new("gone".to_string(), false, None);
    let a = orch.step(Event::Start);
    assert!(matches!(a, Action::FetchTemplate));
    let a = orch.step(Event::TemplateFetched { body: Some("T".to_string()) });
    assert!(matches!(a, Action::FetchParameters));
    let a = orch.step(Event::StacksDescribed { stacks: Vec::new() });
    assert!(matches!(a, Action::Fail));
    assert!(matches!(orch.phase, Phase::Failed { error: CfnError::RemoteNotFound }));
}

#[test]
fn scenario_unset_directive_prompt_yes_persists() {
    // Persistence directive unset: after the poll loop the operator is
    // prompted, types "Y", and the artifacts are copied.
    let mut orch = Orchestrator::new("web-app".to_string(), false, None);
    let (template, params_text) = drive_until_staged(&mut orch, "T");
    orch.step(Event::ArtifactsWritten);
    orch.step(Event::EditorFinished { success: true });
    orch.step(Event::ArtifactsRead { params_text, template });
    orch.step(Event::UpdateAccepted);
    let a = orch.step(Event::StatusDescribed { statuses: vec!["UPDATE_COMPLETE".to_string()] });
    assert!(matches!(a, Action::PollDone { .. }));
    let a = orch.step(Event::Proceed);
    assert!(matches!(a, Action::PromptSave));
    let a = orch.step(Event::SaveAnswer { line: "Y".to_string() });
    assert!(matches!(a, Action::Persist));
    let a = orch.step(Event::PersistFinished { error: None });
    assert!(matches!(a, Action::Finish { persist_error: None }));
    assert!(matches!(orch.phase, Phase::Finished));
}

#[test]
fn prompt_reprompts_on_invalid_input_and_defaults_to_no() {
    let mut orch = Orchestrator::new("s".to_string(), true, None);
    let (template, params_text) = drive_until_staged(&mut orch, "T");
    orch.step(Event::ArtifactsWritten);
    orch.step(Event::EditorFinished { success: true });
    orch.step(Event::ArtifactsRead { params_text, template });
    orch.step(Event::UpdateAccepted);
    orch.step(Event::StatusDescribed { statuses: vec!["CREATE_COMPLETE".to_string()] });
    let a = orch.step(Event::Proceed);
    assert!(matches!(a, Action::PromptSave));
    let a = orch.step(Event::SaveAnswer { line: "maybe".to_string() });
    assert!(matches!(a, Action::PromptSave));
    let a = orch.step(Event::SaveAnswer { line: "".to_string() });
    assert!(matches!(a, Action::Finish { persist_error: None }));
}

#[test]
fn rollback_in_progress_keeps_polling() {
    let mut orch = Orchestrator::new("s".to_string(), false, Some(false));
    let (template, params_text) = drive_until_staged(&mut orch, "T");
    orch.step(Event::ArtifactsWritten);
    orch.step(Event::EditorFinished { success: true });
    orch.step(Event::ArtifactsRead { params_text, template });
    orch.step(Event::UpdateAccepted);
    let a = orch.step(Event::StatusDescribed {
        statuses: vec!["UPDATE_ROLLBACK_IN_PROGRESS".to_string()],
    });
    assert!(matches!(a, Action::PollAgain { class: StatusClass::InProgress, .. }));
    let a = orch.step(Event::StatusDescribed {
        statuses: vec!["UPDATE_ROLLBACK_COMPLETE".to_string()],
    });
    assert!(matches!(a, Action::PollDone { class: StatusClass::FailedOrRolledBack, .. }));
}

#[test]
fn template_without_body_fails() {
    let mut orch = Orchestrator::new("s".to_string(), false, None);
    orch.step(Event::Start);
    let a = orch.step(Event::TemplateFetched { body: None });
    assert!(matches!(a, Action::Fail));
    assert!(matches!(orch.phase, Phase::Failed { error: CfnError::TemplateUnavailable }));
}

#[test]
fn transport_failure_fails_with_remote_unavailable() {
    let mut orch = Orchestrator::new("s".to_string(), false, None);
    orch.step(Event::Start);
    let a = orch.step(Event::TemplateFetchFailed { message: "timed out".to_string() });
    assert!(matches!(a, Action::Fail));
    match &orch.phase {
        Phase::Failed { error: CfnError::RemoteUnavailable(m) } => assert_eq!(m, "timed out"),
        _ => panic!("expected the transport failure"),
    }
}

#[test]
fn write_failure_fails_run() {
    let mut orch = Orchestrator::new("s".to_string(), false, None);
    let _ = drive_until_staged(&mut orch, "T");
    let a = orch.step(Event::ArtifactWriteFailed { message: "disk full".to_string() });
    assert!(matches!(a, Action::Fail));
    assert!(matches!(orch.phase, Phase::Failed { error: CfnError::ArtifactWriteFailed(_) }));
}

#[test]
fn editor_failure_stops_before_submit() {
    let mut orch = Orchestrator::new("s".to_string(), false, None);
    let _ = drive_until_staged(&mut orch, "T");
    orch.step(Event::ArtifactsWritten);
    let a = orch.step(Event::EditorFinished { success: false });
    assert!(matches!(a, Action::Fail));
    assert!(matches!(orch.phase, Phase::Failed { error: CfnError::EditorInvocationFailed }));
}

#[test]
fn garbage_after_edit_never_reaches_submit() {
    let mut orch = Orchestrator::new("s".to_string(), false, None);
    let (template, _) = drive_until_staged(&mut orch, "T");
    orch.step(Event::ArtifactsWritten);
    orch.step(Event::EditorFinished { success: true });
    let a = orch.step(Event::ArtifactsRead {
        params_text: "not json at all".to_string(),
        template,
    });
    assert!(matches!(a, Action::Fail));
    assert!(matches!(orch.phase, Phase::Failed { error: CfnError::MalformedParameterData }));
}

#[test]
fn edited_record_missing_key_fails_before_submit() {
    let mut orch = Orchestrator::new("s".to_string(), false, None);
    let (template, _) = drive_until_staged(&mut orch, "T");
    orch.step(Event::ArtifactsWritten);
    orch.step(Event::EditorFinished { success: true });
    let a = orch.step(Event::ArtifactsRead {
        params_text: "[{\"parameter_value\": \"V\"}]".to_string(),
        template,
    });
    assert!(matches!(a, Action::Fail));
    assert!(matches!(orch.phase, Phase::Failed { error: CfnError::EmptyOrMissingField }));
}

#[test]
fn update_rejection_surfaces_remote_message() {
    let mut orch = Orchestrator::new("s".to_string(), true, None);
    let (template, params_text) = drive_until_staged(&mut orch, "T");
    orch.step(Event::ArtifactsWritten);
    orch.step(Event::EditorFinished { success: true });
    let a = orch.step(Event::ArtifactsRead { params_text, template });
    match a {
        Action::SubmitUpdate { allow_capabilities, .. } => assert!(allow_capabilities),
        _ => panic!("expected the submit action"),
    }
    let a = orch.step(Event::UpdateRejected { message: "missing capability".to_string() });
    assert!(matches!(a, Action::Fail));
    match &orch.phase {
        Phase::Failed { error: CfnError::RemoteRejected(m) } => {
            assert_eq!(m, "missing capability")
        },
        _ => panic!("expected the rejection"),
    }
}

#[test]
fn ambiguous_poll_result_fails() {
    let mut orch = Orchestrator::new("s".to_string(), false, None);
    let (template, params_text) = drive_until_staged(&mut orch, "T");
    orch.step(Event::ArtifactsWritten);
    orch.step(Event::EditorFinished { success: true });
    orch.step(Event::ArtifactsRead { params_text, template });
    orch.step(Event::UpdateAccepted);
    let a = orch.step(Event::StatusDescribed {
        statuses: vec!["UPDATE_COMPLETE".to_string(), "UPDATE_COMPLETE".to_string()],
    });
    assert!(matches!(a, Action::Fail));
    assert!(matches!(orch.phase, Phase::Failed { error: CfnError::RemoteAmbiguous }));
}

#[test]
fn poll_transport_failure_is_distinct_from_failed_status() {
    let mut orch = Orchestrator::new("s".to_string(), false, None);
    let (template, params_text) = drive_until_staged(&mut orch, "T");
    orch.step(Event::ArtifactsWritten);
    orch.step(Event::EditorFinished { success: true });
    orch.step(Event::ArtifactsRead { params_text, template });
    orch.step(Event::UpdateAccepted);
    let a = orch.step(Event::StatusQueryFailed { message: "connection reset".to_string() });
    assert!(matches!(a, Action::Fail));
    assert!(matches!(orch.phase, Phase::Failed { error: CfnError::RemoteUnavailable(_) }));
}

#[test]
fn persist_failure_is_reported_but_run_finishes() {
    let mut orch = Orchestrator::new("s".to_string(), false, Some(true));
    let (template, params_text) = drive_until_staged(&mut orch, "T");
    orch.step(Event::ArtifactsWritten);
    orch.step(Event::EditorFinished { success: true });
    orch.step(Event::ArtifactsRead { params_text, template });
    orch.step(Event::UpdateAccepted);
    orch.step(Event::StatusDescribed { statuses: vec!["UPDATE_COMPLETE".to_string()] });
    let a = orch.step(Event::Proceed);
    assert!(matches!(a, Action::Persist));
    let a = orch.step(Event::PersistFinished { error: Some("copy failed".to_string()) });
    match a {
        Action::Finish { persist_error: Some(m) } => assert_eq!(m, "copy failed"),
        _ => panic!("expected the finish action with the copy failure"),
    }
    assert!(matches!(orch.phase, Phase::Finished));
}

#[test]
fn mismatched_event_changes_nothing() {
    let mut orch = Orchestrator::new("s".to_string(), false, None);
    let a = orch.step(Event::UpdateAccepted);
    assert!(matches!(a, Action::Halt));
    assert!(matches!(orch.phase, Phase::Idle));
}

#[test]
fn save_answers_case_insensitive() {
    assert!(matches!(parse_save_answer("y"), Answer::Yes));
    assert!(matches!(parse_save_answer("Y"), Answer::Yes));
    assert!(matches!(parse_save_answer("yes"), Answer::Yes));
    assert!(matches!(parse_save_answer("YES"), Answer::Yes));
    assert!(matches!(parse_save_answer("Yes"), Answer::Yes));
    assert!(matches!(parse_save_answer("  yEs \n"), Answer::Yes));
    assert!(matches!(parse_save_answer("n"), Answer::No));
    assert!(matches!(parse_save_answer("N"), Answer::No));
    assert!(matches!(parse_save_answer("No"), Answer::No));
    assert!(matches!(parse_save_answer("NO"), Answer::No));
    assert!(matches!(parse_save_answer(""), Answer::No));
    assert!(matches!(parse_save_answer("   \n"), Answer::No));
    assert!(matches!(parse_save_answer("yep"), Answer::Retry));
    assert!(matches!(parse_save_answer("q"), Answer::Retry));
    assert!(matches!(parse_save_answer("no way"), Answer::Retry));
}
