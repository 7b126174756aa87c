use vstd::prelude::*;
use crate::types::{AppError, ErrorModel};
use crate::config::{Configuration, ConfigModel};
use crate::job::{JobDTO, JobDtoModel};
use crate::notification::{Notification, NotificationModel};
use crate::diff::DiffTag;
use crate::app_state::jobs_model;

verus! {

/// A diff together with the title it is shown under.
#[derive(Debug, PartialEq)]
pub struct JobDiffs {
    pub diffs: Vec<(DiffTag, String)>,
    pub title: String,
}

/// Everything the application reacts to: user commands, configuration
/// events and job lifecycle events.
#[derive(Debug, PartialEq)]
pub enum AppAction {
    Quit,
    ReloadConfigurationFile(String),
    TryLoadConfigurationFile(String),
    ConfigurationLoaded(Configuration),
    GenerateDefaultConfiguration,
    LoadingJobsProgress(usize, usize),
    SetCriticalException(AppError),
    StartAllJobs,
    StartOneJob(String),
    ShowHelp,
    CloseHelp,
    SelectRowByJobName(String),
    SelectPreviousRow,
    SelectNextRow,
    SwitchTab,
    ScrollUp,
    ScrollDown,
    GoToNextDiff,
    GoToPreviousDiff,
    SetNotification(Notification),
    DismissNotification,
    ChangeTheme,
    JobsUpdated(Vec<JobDTO>),
    ShowJobInfo(JobDTO),
    CloseJobInfoScreen,
    SaveFailedJobs(Vec<JobDTO>),
    SaveCurrentJob(JobDTO),
}

pub ghost enum ActionModel {
    Quit,
    ReloadConfigurationFile(Seq<char>),
    TryLoadConfigurationFile(Seq<char>),
    ConfigurationLoaded(ConfigModel),
    GenerateDefaultConfiguration,
    LoadingJobsProgress(usize, usize),
    SetCriticalException(ErrorModel),
    StartAllJobs,
    StartOneJob(Seq<char>),
    ShowHelp,
    CloseHelp,
    SelectRowByJobName(Seq<char>),
    SelectPreviousRow,
    SelectNextRow,
    SwitchTab,
    ScrollUp,
    ScrollDown,
    GoToNextDiff,
    GoToPreviousDiff,
    SetNotification(NotificationModel),
    DismissNotification,
    ChangeTheme,
    JobsUpdated(Seq<JobDtoModel>),
    ShowJobInfo(JobDtoModel),
    CloseJobInfoScreen,
    SaveFailedJobs(Seq<JobDtoModel>),
    SaveCurrentJob(JobDtoModel),
}

impl View for AppAction {
    type V = ActionModel;

    open spec fn view(&self) -> ActionModel {
        match self {
            AppAction::Quit => ActionModel::Quit,
            AppAction::ReloadConfigurationFile(p) => ActionModel::ReloadConfigurationFile(p@),
            AppAction::TryLoadConfigurationFile(p) => ActionModel::TryLoadConfigurationFile(p@),
            AppAction::ConfigurationLoaded(c) => ActionModel::ConfigurationLoaded(c@),
            AppAction::GenerateDefaultConfiguration => ActionModel::GenerateDefaultConfiguration,
            AppAction::LoadingJobsProgress(c, t) => ActionModel::LoadingJobsProgress(*c, *t),
            AppAction::SetCriticalException(e) => ActionModel::SetCriticalException(e@),
            AppAction::StartAllJobs => ActionModel::StartAllJobs,
            AppAction::StartOneJob(n) => ActionModel::StartOneJob(n@),
            AppAction::ShowHelp => ActionModel::ShowHelp,
            AppAction::CloseHelp => ActionModel::CloseHelp,
            AppAction::SelectRowByJobName(n) => ActionModel::SelectRowByJobName(n@),
            AppAction::SelectPreviousRow => ActionModel::SelectPreviousRow,
            AppAction::SelectNextRow => ActionModel::SelectNextRow,
            AppAction::SwitchTab => ActionModel::SwitchTab,
            AppAction::ScrollUp => ActionModel::ScrollUp,
            AppAction::ScrollDown => ActionModel::ScrollDown,
            AppAction::GoToNextDiff => ActionModel::GoToNextDiff,
            AppAction::GoToPreviousDiff => ActionModel::GoToPreviousDiff,
            AppAction::SetNotification(n) => ActionModel::SetNotification(n@),
            AppAction::DismissNotification => ActionModel::DismissNotification,
            AppAction::ChangeTheme => ActionModel::ChangeTheme,
            AppAction::JobsUpdated(js) => ActionModel::JobsUpdated(jobs_model(js@)),
            AppAction::ShowJobInfo(j) => ActionModel::ShowJobInfo(j@),
            AppAction::CloseJobInfoScreen => ActionModel::CloseJobInfoScreen,
            AppAction::SaveFailedJobs(js) => ActionModel::SaveFailedJobs(jobs_model(js@)),
            AppAction::SaveCurrentJob(j) => ActionModel::SaveCurrentJob(j@),
        }
    }
}

} // verus!
