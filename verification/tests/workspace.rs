use koharu::workspace::{
    close_current_project, delete_project, replace_project, require_project, startup_step,
    WorkspaceAction,
};

fn names(actions: &[WorkspaceAction]) -> Vec<String> {
    actions.iter().map(|action| format!("{action:?}")).collect()
}

#[test]
fn opens_a_project_in_place_of_another() {
    assert_eq!(
        names(&replace_project(&vec![4, 2], "B")),
        [
            "ResetAgent",
            "StopJob { job: 4 }",
            "StopJob { job: 2 }",
            "ClearJobs",
            "Open { name: \"B\" }",
            "ShowPage",
            "PublishCanvas",
            "PublishProject { project: Some(\"B\") }",
        ]
    );
}

#[test]
fn closes_the_open_project() {
    assert_eq!(
        names(&close_current_project(&Vec::new())),
        [
            "ResetAgent",
            "ClearJobs",
            "Close",
            "ClearCanvas",
            "PublishCanvas",
            "PublishProject { project: None }",
        ]
    );
}

#[test]
fn closes_a_project_before_it_is_deleted() {
    let alone = ["Delete { name: \"A\" }"];
    assert_eq!(names(&delete_project(&vec![1], None, "A")), alone);
    assert_eq!(names(&delete_project(&vec![1], Some("B"), "A")), alone);
    let mut expected = names(&close_current_project(&vec![1]));
    expected.push(alone[0].to_owned());
    assert_eq!(names(&delete_project(&vec![1], Some("A"), "A")), expected);
}

#[test]
fn asks_for_an_open_project() {
    assert!(require_project(true).is_ok());
    assert_eq!(require_project(false).unwrap_err().message, "no project is open");
}

#[test]
fn waits_until_the_application_is_ready() {
    assert_eq!(startup_step(true, None).unwrap(), true);
    assert_eq!(startup_step(true, Some("closed".to_owned())).unwrap(), true);
    assert_eq!(startup_step(false, None).unwrap(), false);
    assert_eq!(
        startup_step(false, Some("closed".to_owned())).unwrap_err().message,
        "startup state closed before initialization completed: closed"
    );
}
