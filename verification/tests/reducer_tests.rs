use http_diff::actions::AppAction;
use http_diff::app_state::AppState;
use http_diff::job::JobDTO;
use http_diff::notification::{Notification, NotificationId, NotificationType};
use http_diff::reducer::{replay_actions, update_state};
use http_diff::types::JobStatus;

fn job(name: &str, status: JobStatus) -> JobDTO {
    JobDTO {
        requests: Vec::new(),
        status,
        job_duration: None,
        job_name: name.to_owned(),
    }
}

fn sample_log() -> Vec<(AppAction, u64)> {
    vec![
        (
            AppAction::JobsUpdated(vec![
                job("/a", JobStatus::Running),
                job("/b", JobStatus::Failed),
            ]),
            10,
        ),
        (AppAction::SelectNextRow, 20),
        (
            AppAction::SetNotification(Notification::new(
                NotificationId::ReloadingConfiguration,
                "Reloading configuration file as it was changed.",
                Some(5000),
                NotificationType::Warning,
                30,
            )),
            30,
        ),
        (AppAction::JobsUpdated(vec![job("/a", JobStatus::Finished)]), 40),
        (AppAction::DismissNotification, 50),
        (AppAction::ChangeTheme, 60),
    ]
}

/// Replaying the same action log from the same fresh state reproduces the
/// identical final state.
#[test]
fn replaying_a_log_reproduces_the_state() {
    let mut one = AppState::new("./output", false, 0);
    let mut two = AppState::new("./output", false, 0);
    replay_actions(&mut one, sample_log());
    replay_actions(&mut two, sample_log());
    assert_eq!(one, two);
    assert_eq!(one.jobs.len(), 2);
    assert_eq!(one.jobs[0].status, JobStatus::Finished);
    assert_eq!(one.jobs[1].status, JobStatus::Failed);
    assert!(one.notification.is_none());
}

/// A quit action sets the quit flag; updates upsert rows by name.
#[test]
fn quit_and_upsert_behave() {
    let mut app = AppState::new("./output", false, 0);
    update_state(&mut app, AppAction::JobsUpdated(vec![job("/a", JobStatus::Running)]), 1);
    update_state(&mut app, AppAction::JobsUpdated(vec![job("/a", JobStatus::Finished)]), 2);
    assert_eq!(app.jobs.len(), 1);
    assert_eq!(app.jobs[0].status, JobStatus::Finished);
    assert!(!app.should_quit);
    update_state(&mut app, AppAction::Quit, 3);
    assert!(app.should_quit);
}

/// While a fatal error is latched, ordinary actions are refused but a
/// dismiss still goes through.
#[test]
fn latched_error_restricts_actions() {
    let mut app = AppState::new("./output", false, 0);
    update_state(
        &mut app,
        AppAction::SetCriticalException(http_diff::types::AppError::Exception(
            "boom".to_owned(),
        )),
        1,
    );
    update_state(&mut app, AppAction::ShowHelp, 2);
    assert!(!app.should_show_help);
    update_state(
        &mut app,
        AppAction::SetNotification(Notification::new(
            NotificationId::SavedJob,
            "saved",
            None,
            NotificationType::Success,
            3,
        )),
        3,
    );
    assert!(app.notification.is_some());
}
