use vstd::prelude::*;
use crate::actions::{ActionModel, AppAction};

verus! {

/// What an action arriving during a running batch decides: keep the batch
/// going, stop it, or stop it and run the reload next, so that the next
/// batch starts from the reloaded configuration.
#[derive(Debug, PartialEq)]
pub enum BatchControl {
    Continue,
    StopBatch,
    StopAndReload(String),
}

pub ghost enum BatchControlModel {
    Continue,
    StopBatch,
    StopAndReload(Seq<char>),
}

impl View for BatchControl {
    type V = BatchControlModel;

    open spec fn view(&self) -> BatchControlModel {
        match self {
            BatchControl::Continue => BatchControlModel::Continue,
            BatchControl::StopBatch => BatchControlModel::StopBatch,
            BatchControl::StopAndReload(p) => BatchControlModel::StopAndReload(p@),
        }
    }
}

/// What a running batch does with an incoming action: a new start-all stops
/// the batch; a configuration reload stops it and is run next; everything
/// else leaves the batch running.
pub open spec fn spec_batch_decision(a: ActionModel) -> BatchControlModel {
    match a {
        ActionModel::StartAllJobs => BatchControlModel::StopBatch,
        ActionModel::ReloadConfigurationFile(p) => BatchControlModel::StopAndReload(p),
        _ => BatchControlModel::Continue,
    }
}

/// Decides what a running batch does with an incoming action.
pub fn batch_event_decision(action: &AppAction) -> (r: BatchControl)
    ensures
        r@ == spec_batch_decision(action@),
{
    match action {
        AppAction::StartAllJobs => BatchControl::StopBatch,
        AppAction::ReloadConfigurationFile(p) => BatchControl::StopAndReload(p.clone()),
        _ => BatchControl::Continue,
    }
}

} // verus!
