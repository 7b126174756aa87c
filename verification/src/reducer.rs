use vstd::prelude::*;
use crate::types::{AppError, ErrorModel, JobStatus};
use crate::actions::{ActionModel, AppAction};
use crate::app_state::{AppState, AppStateModel, Screen, app_inv, jobs_model, spec_absorb_buffer,
    spec_expire_notification, spec_go_to_diff, spec_next_row, spec_next_tab, spec_on_config_load,
    spec_previous_row, spec_progress_notification, spec_reset_jobs, spec_row_of_name,
    spec_scroll_view, spec_set_selected, spec_upsert_jobs, spec_domain_strings,
    spec_terminal_jobs};
use crate::job::{JobDTO, JobDtoModel};
use crate::notification::{Notification, NotificationModel, NotificationId, NotificationType};

verus! {

/// Outside work the reducer asks for: lines to print, and the default
/// configuration to write out.
#[derive(Debug, PartialEq)]
pub enum SideEffect {
    PrintJobRow(JobDTO),
    PrintHeader(Vec<String>),
    PrintBody(String),
    WriteDefaultConfiguration,
}

pub ghost enum SideEffectModel {
    PrintJobRow(JobDtoModel),
    PrintHeader(Seq<Seq<char>>),
    PrintBody(Seq<char>),
    WriteDefaultConfiguration,
}

impl View for SideEffect {
    type V = SideEffectModel;

    open spec fn view(&self) -> SideEffectModel {
        match self {
            SideEffect::PrintJobRow(j) => SideEffectModel::PrintJobRow(j@),
            SideEffect::PrintHeader(h) => SideEffectModel::PrintHeader(
                crate::config::strs_model(h@),
            ),
            SideEffect::PrintBody(b) => SideEffectModel::PrintBody(b@),
            SideEffect::WriteDefaultConfiguration => SideEffectModel::WriteDefaultConfiguration,
        }
    }
}

/// What one reduction step asks for beside the state change: an action to
/// run next, an action for the worker, and outside work.
#[derive(Debug, PartialEq)]
pub struct UpdateOutcome {
    pub follow_up: Option<AppAction>,
    pub dispatch: Option<AppAction>,
    pub effects: Vec<SideEffect>,
}

pub ghost struct OutcomeModel {
    pub follow_up: Option<ActionModel>,
    pub dispatch: Option<ActionModel>,
    pub effects: Seq<SideEffectModel>,
}

impl View for UpdateOutcome {
    type V = OutcomeModel;

    open spec fn view(&self) -> OutcomeModel {
        OutcomeModel {
            follow_up: match self.follow_up {
                Some(a) => Some(a@),
                None => None,
            },
            dispatch: match self.dispatch {
                Some(a) => Some(a@),
                None => None,
            },
            effects: Seq::new(
                self.effects@.len(),
                |i: int|
                    if 0 <= i < self.effects@.len() {
                        self.effects@[i]@
                    } else {
                        SideEffectModel::WriteDefaultConfiguration
                    },
            ),
        }
    }
}

/// While a fatal error is latched, only a closed set of actions is handled.
pub open spec fn spec_should_skip(app_has_exception: bool, action: ActionModel) -> bool {
    if !app_has_exception {
        false
    } else {
        match action {
            ActionModel::Quit => false,
            ActionModel::ConfigurationLoaded(_) => false,
            ActionModel::GenerateDefaultConfiguration => false,
            ActionModel::DismissNotification => false,
            ActionModel::SaveFailedJobs(_) => false,
            ActionModel::SetNotification(_) => false,
            _ => true,
        }
    }
}

/// Whether an action is refused while a fatal error is latched.
pub fn should_skip_action(app_has_exception: bool, action: &AppAction) -> (r: bool)
    ensures
        r == spec_should_skip(app_has_exception, action@),
{
    if !app_has_exception {
        return false;
    }
    match action {
        AppAction::Quit => false,
        AppAction::ConfigurationLoaded(_) => false,
        AppAction::GenerateDefaultConfiguration => false,
        AppAction::DismissNotification => false,
        AppAction::SaveFailedJobs(_) => false,
        AppAction::SetNotification(_) => false,
        _ => true,
    }
}

/// An outcome that asks for nothing.
pub open spec fn outcome_none() -> OutcomeModel {
    OutcomeModel { follow_up: None, dispatch: None, effects: Seq::empty() }
}

/// The failed jobs of a state.
pub open spec fn spec_failed_jobs(s: AppStateModel) -> Seq<JobDtoModel> {
    s.jobs.filter(|j: JobDtoModel| j.status == JobStatus::Failed)
}

proof fn lemma_upsert_jobs_frame(s: AppStateModel, u: Seq<JobDtoModel>)
    ensures
        spec_upsert_jobs(s, u) == (AppStateModel {
            jobs: spec_upsert_jobs(s, u).jobs,
            content_length_downloaded_buffer: spec_upsert_jobs(
                s,
                u,
            ).content_length_downloaded_buffer,
            ..s
        }),
    decreases u.len(),
{
    if u.len() > 0 {
        lemma_upsert_jobs_frame(crate::app_state::spec_upsert_one(s, u[0]), u.skip(1));
    }
}

/// The single state transition function: what one action does to the state,
/// and what it asks for beside the state change. Every other component only
/// publishes actions; this is the sole mutator of the visible state.
pub open spec fn spec_update(s: AppStateModel, a: ActionModel, now_ms: u64) -> (
    AppStateModel,
    OutcomeModel,
) {
    if spec_should_skip(s.critical_exception is Some, a) {
        (s, outcome_none())
    } else {
        match a {
            ActionModel::Quit => (AppStateModel { should_quit: true, ..s }, outcome_none()),
            ActionModel::SetCriticalException(e) => {
                let s1 = AppStateModel { critical_exception: Some(e), ..s };
                if s1.is_headless_mode {
                    (AppStateModel { should_quit: true, ..s1 }, outcome_none())
                } else {
                    (AppStateModel { current_screen: Screen::Exception, ..s1 }, outcome_none())
                }
            },
            ActionModel::ShowHelp => (
                AppStateModel { should_show_help: true, ..s },
                outcome_none(),
            ),
            ActionModel::CloseHelp => (
                AppStateModel { should_show_help: false, ..s },
                outcome_none(),
            ),
            ActionModel::SelectPreviousRow => (
                AppStateModel { selected_row: Some(spec_previous_row(s)), ..s },
                outcome_none(),
            ),
            ActionModel::SelectNextRow => (
                AppStateModel { selected_row: Some(spec_next_row(s)), ..s },
                outcome_none(),
            ),
            ActionModel::ScrollUp => (spec_scroll_view(s, true), outcome_none()),
            ActionModel::ScrollDown => (spec_scroll_view(s, false), outcome_none()),
            ActionModel::GoToNextDiff => (spec_go_to_diff(s, false), outcome_none()),
            ActionModel::GoToPreviousDiff => (spec_go_to_diff(s, true), outcome_none()),
            ActionModel::SetNotification(n) => spec_apply_notification(s, n),
            ActionModel::DismissNotification => (
                AppStateModel { notification: None, ..s },
                outcome_none(),
            ),
            ActionModel::ChangeTheme => (
                AppStateModel {
                    current_theme: (if s.current_theme
                        == crate::app_state::ThemeType::Dark {
                        crate::app_state::ThemeType::Light
                    } else {
                        crate::app_state::ThemeType::Dark
                    }),
                    ..s
                },
                outcome_none(),
            ),
            ActionModel::JobsUpdated(jobs) => {
                let s1 = spec_upsert_jobs(s, jobs);
                let effects = if s.is_headless_mode {
                    spec_terminal_jobs(jobs).map_values(
                        |j: JobDtoModel| SideEffectModel::PrintJobRow(j),
                    )
                } else {
                    Seq::empty()
                };
                (s1, OutcomeModel { follow_up: None, dispatch: None, effects })
            },
            ActionModel::ShowJobInfo(job) => {
                let (s1, notice) = spec_set_selected(s, job, now_ms);
                let follow_up = match notice {
                    Some(n) => Some(ActionModel::SetNotification(n)),
                    None => None,
                };
                (s1, OutcomeModel { follow_up, dispatch: None, effects: Seq::empty() })
            },
            ActionModel::SelectRowByJobName(name) => (
                AppStateModel { selected_row: spec_row_of_name(s, name), ..s },
                outcome_none(),
            ),
            ActionModel::CloseJobInfoScreen => (
                AppStateModel { selected_job: None, current_screen: Screen::Home, ..s },
                outcome_none(),
            ),
            ActionModel::StartAllJobs => (spec_reset_jobs(s), outcome_none()),
            ActionModel::StartOneJob(_) => {
                let follow_up = if s.current_screen == Screen::JobInfo {
                    Some(ActionModel::CloseJobInfoScreen)
                } else {
                    None
                };
                (s, OutcomeModel { follow_up, dispatch: None, effects: Seq::empty() })
            },
            ActionModel::SwitchTab => (spec_next_tab(s), outcome_none()),
            ActionModel::ConfigurationLoaded(c) => {
                let s1 = spec_on_config_load(s, c);
                let effects = if s.is_headless_mode {
                    seq![
                        SideEffectModel::PrintHeader(
                            seq![("Endpoint")@] + spec_domain_strings(c),
                        ),
                    ]
                } else {
                    Seq::empty()
                };
                (s1, OutcomeModel { follow_up: None, dispatch: None, effects })
            },
            ActionModel::LoadingJobsProgress(current, total) => {
                let follow_up = match spec_progress_notification(s, current, total, now_ms) {
                    Some(n) => Some(ActionModel::SetNotification(n)),
                    None => None,
                };
                (s, OutcomeModel { follow_up, dispatch: None, effects: Seq::empty() })
            },
            ActionModel::GenerateDefaultConfiguration => (
                s,
                OutcomeModel {
                    follow_up: None,
                    dispatch: None,
                    effects: seq![SideEffectModel::WriteDefaultConfiguration],
                },
            ),
            _ => (s, outcome_none()),
        }
    }
}

/// What showing a message does; in headless mode the terminal summaries
/// latch failure, save failed jobs, print and quit.
pub open spec fn spec_apply_notification(s: AppStateModel, n: NotificationModel) -> (
    AppStateModel,
    OutcomeModel,
) {
    if s.is_headless_mode {
        if n.id == NotificationId::AllRequestsFinishedWithFails {
            let s1 = AppStateModel {
                critical_exception: Some(ErrorModel::Exception(n.body)),
                notification: Some(n),
                ..s
            };
            let failed = spec_failed_jobs(s);
            if failed.len() > 0 {
                (
                    s1,
                    OutcomeModel {
                        follow_up: None,
                        dispatch: Some(ActionModel::SaveFailedJobs(failed)),
                        effects: Seq::empty(),
                    },
                )
            } else {
                (AppStateModel { should_quit: true, ..s1 }, outcome_none())
            }
        } else if n.id == NotificationId::AllRequestsFinishedWithoutFails || n.id
            == NotificationId::SavedJobs {
            (
                AppStateModel { should_quit: true, notification: Some(n), ..s },
                OutcomeModel {
                    follow_up: None,
                    dispatch: None,
                    effects: seq![SideEffectModel::PrintBody(n.body)],
                },
            )
        } else {
            (AppStateModel { notification: Some(n), ..s }, outcome_none())
        }
    } else {
        (AppStateModel { notification: Some(n), ..s }, outcome_none())
    }
}

/// Applies one action to the state; the result is a function of the state,
/// the action and the clock alone.
#[verifier::rlimit(100)]
pub fn update_state(app: &mut AppState, action: AppAction, now_ms: u64) -> (r: UpdateOutcome)
    requires
        app_inv(old(app)@),
    ensures
        final(app)@ == spec_update(old(app)@, action@, now_ms).0,
        r@ == spec_update(old(app)@, action@, now_ms).1,
        app_inv(final(app)@),
{
    let mut outcome = UpdateOutcome { follow_up: None, dispatch: None, effects: Vec::new() };
    proof {
        assert(outcome@.effects =~= Seq::<SideEffectModel>::empty());
        assert(outcome@ == outcome_none());
    }
    let skip = should_skip_action(app.critical_exception.is_some(), &action);
    if skip {
        return outcome;
    }
    match action {
        AppAction::Quit => {
            app.set_should_quit(true);
        }
        AppAction::SetCriticalException(error) => {
            app.set_critical_exception(error);
            if app.is_headless_mode {
                app.set_should_quit(true);
            } else {
                app.show_exception_screen();
            }
        }
        AppAction::ShowHelp => {
            app.show_help_screen();
        }
        AppAction::CloseHelp => {
            app.close_help_screen();
        }
        AppAction::SelectPreviousRow => {
            app.select_previous_row();
        }
        AppAction::SelectNextRow => {
            app.select_next_row();
        }
        AppAction::ScrollUp => {
            app.scroll_up();
        }
        AppAction::ScrollDown => {
            app.scroll_down();
        }
        AppAction::GoToNextDiff => {
            app.go_to_next_diff();
        }
        AppAction::GoToPreviousDiff => {
            app.go_to_prev_diff();
        }
        AppAction::SetNotification(notification) => {
            if app.is_headless_mode {
                if matches!(notification.id, NotificationId::AllRequestsFinishedWithFails) {
                    app.set_critical_exception(AppError::Exception(notification.body.clone()));
                    app.set_notification(notification);
                    let failed_jobs = app.get_failed_jobs();
                    if failed_jobs.len() > 0 {
                        proof {
                            assert(jobs_model(failed_jobs@) == spec_failed_jobs(old(app)@));
                        }
                        outcome.dispatch = Some(AppAction::SaveFailedJobs(failed_jobs));
                    } else {
                        proof {
                            assert(jobs_model(failed_jobs@) == spec_failed_jobs(old(app)@));
                            assert(spec_failed_jobs(old(app)@).len() == 0);
                        }
                        app.set_should_quit(true);
                    }
                } else if matches!(
                    notification.id,
                    NotificationId::AllRequestsFinishedWithoutFails,
                ) || matches!(notification.id, NotificationId::SavedJobs) {
                    outcome.effects.push(SideEffect::PrintBody(notification.body.clone()));
                    app.set_should_quit(true);
                    app.set_notification(notification);
                    proof {
                        assert(outcome@.effects =~= spec_update(
                            old(app)@,
                            action@,
                            now_ms,
                        ).1.effects);
                    }
                } else {
                    app.set_notification(notification);
                }
            } else {
                app.set_notification(notification);
            }
        }
        AppAction::DismissNotification => {
            app.clear_notification();
        }
        AppAction::ChangeTheme => {
            app.change_a_theme();
        }
        AppAction::JobsUpdated(updated_jobs) => {
            let ghost um = jobs_model(updated_jobs@);
            proof {
                lemma_upsert_jobs_frame(old(app)@, um);
            }
            let terminal = app.upsert_jobs(updated_jobs);
            if app.is_headless_mode {
                let n = terminal.len();
                let ghost tm = jobs_model(terminal@);
                let mut k: usize = 0;
                let mut terminal_left = terminal;
                let mut effects: Vec<SideEffect> = Vec::new();
                while k < n
                    invariant
                        n == tm.len(),
                        tm.len() == terminal_left@.len() + k,
                        0 <= k <= n,
                        forall|j: int|
                            0 <= j < terminal_left@.len() ==> (#[trigger] terminal_left@[j])@
                                == tm[k + j],
                        effects@.len() == k,
                        forall|j: int|
                            0 <= j < k ==> (#[trigger] effects@[j])@
                                == SideEffectModel::PrintJobRow(tm[j]),
                    decreases n - k,
                {
                    let job = terminal_left.remove(0);
                    proof {
                        assert(job@ == tm[k as int]);
                    }
                    effects.push(SideEffect::PrintJobRow(job));
                    k = k + 1;
                }
                outcome.effects = effects;
                proof {
                    assert(outcome@.effects =~= spec_terminal_jobs(um).map_values(
                        |j: JobDtoModel| SideEffectModel::PrintJobRow(j),
                    ));
                }
            }
        }
        AppAction::ShowJobInfo(job) => {
            let notice = app.set_selected_job(job, now_ms);
            match notice {
                Some(n) => {
                    outcome.follow_up = Some(AppAction::SetNotification(n));
                }
                None => {
                }
            }
        }
        AppAction::SelectRowByJobName(job_name) => {
            app.select_row_by_job_name(&job_name);
        }
        AppAction::CloseJobInfoScreen => {
            app.reset_selected_job();
            app.current_screen = Screen::Home;
        }
        AppAction::StartAllJobs => {
            app.reset_jobs_state();
        }
        AppAction::StartOneJob(_) => {
            if matches!(app.current_screen, Screen::JobInfo) {
                outcome.follow_up = Some(AppAction::CloseJobInfoScreen);
            }
        }
        AppAction::SwitchTab => {
            app.go_to_next_request_info_tab();
        }
        AppAction::ConfigurationLoaded(configuration) => {
            let headers = app.on_configuration_load(&configuration);
            if app.is_headless_mode {
                outcome.effects.push(SideEffect::PrintHeader(headers));
                proof {
                    assert(outcome@.effects =~= spec_update(old(app)@, action@, now_ms).1.effects);
                }
            }
        }
        AppAction::LoadingJobsProgress(current, total) => {
            let notice = app.on_load_jobs_progress_change(current, total, now_ms);
            match notice {
                Some(n) => {
                    outcome.follow_up = Some(AppAction::SetNotification(n));
                }
                None => {
                }
            }
        }
        AppAction::GenerateDefaultConfiguration => {
            outcome.effects.push(SideEffect::WriteDefaultConfiguration);
            proof {
                assert(outcome@.effects =~= seq![SideEffectModel::WriteDefaultConfiguration]);
            }
        }
        _ => {
        }
    }
    outcome
}

/// A recorded action with the clock reading it was applied at.
pub open spec fn spec_replay(
    s: AppStateModel,
    log: Seq<(ActionModel, u64)>,
) -> AppStateModel
    decreases log.len(),
{
    if log.len() == 0 {
        s
    } else {
        spec_replay(spec_update(s, log[0].0, log[0].1).0, log.skip(1))
    }
}

/// Replays a recorded action log from a given state. The outcome is pinned
/// by the initial state and the log alone: replaying the same log twice
/// from the same state reproduces the identical final state.
pub fn replay_actions(app: &mut AppState, log: Vec<(AppAction, u64)>)
    requires
        app_inv(old(app)@),
    ensures
        final(app)@ == spec_replay(old(app)@, log_model(log@)),
        app_inv(final(app)@),
{
    let ghost lm = log_model(log@);
    let mut rest = log;
    proof {
        assert(lm.skip(0) =~= lm);
    }
    while rest.len() > 0
        invariant
            app_inv(app@),
            spec_replay(app@, log_model(rest@)) == spec_replay(old(app)@, lm),
        decreases rest@.len(),
    {
        let ghost before = log_model(rest@);
        let (action, at) = rest.remove(0);
        proof {
            assert(log_model(rest@) =~= before.skip(1));
            assert(before[0] == (action@, at));
        }
        update_state(app, action, at);
    }
    proof {
        assert(log_model(rest@) =~= Seq::<(ActionModel, u64)>::empty());
    }
}

/// The models of a recorded log.
pub open spec fn log_model(log: Seq<(AppAction, u64)>) -> Seq<(ActionModel, u64)> {
    Seq::new(log.len(), |i: int| (log[i].0@, log[i].1))
}

} // verus!
