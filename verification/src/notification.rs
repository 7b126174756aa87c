use vstd::prelude::*;

verus! {

/// The stable identity of a notification; a new one with the same identity
/// replaces the old.
#[derive(Clone, Copy, Debug, PartialEq, Eq, Structural)]
pub enum NotificationId {
    NoFailedJobs,
    SavedJob,
    SavedJobs,
    FailedToSaveJobs,
    PendingJobInfoError,
    JobProgressChange,
    GenerateDefaultConfig,
    GenerateDefaultConfigFailed,
    AllRequestsFinishedWithoutFails,
    AllRequestsFinishedWithFails,
    ReloadingConfiguration,
}

#[derive(Clone, Copy, Debug, PartialEq, Eq, Structural)]
pub enum NotificationType {
    Success,
    Warning,
    Error,
}

/// An ephemeral message: its identity, body, kind, when it appeared and how
/// long it stays.
#[derive(Debug, PartialEq)]
pub struct Notification {
    pub id: NotificationId,
    pub body: String,
    pub expire_duration_ms: Option<u64>,
    pub started_at_ms: u64,
    pub kind: NotificationType,
}

pub ghost struct NotificationModel {
    pub id: NotificationId,
    pub body: Seq<char>,
    pub expire_duration_ms: Option<u64>,
    pub started_at_ms: u64,
    pub kind: NotificationType,
}

impl View for Notification {
    type V = NotificationModel;

    open spec fn view(&self) -> NotificationModel {
        NotificationModel {
            id: self.id,
            body: self.body@,
            expire_duration_ms: self.expire_duration_ms,
            started_at_ms: self.started_at_ms,
            kind: self.kind,
        }
    }
}

impl Clone for Notification {
    /// A clone carries the same message.
    fn clone(&self) -> (res: Self)
        ensures
            res@ == self@,
    {
        Notification {
            id: self.id,
            body: self.body.clone(),
            expire_duration_ms: self.expire_duration_ms,
            started_at_ms: self.started_at_ms,
            kind: self.kind,
        }
    }
}

impl Notification {
    /// A message first shown at `now_ms`.
    pub fn new(
        id: NotificationId,
        body: &str,
        expire_duration_ms: Option<u64>,
        kind: NotificationType,
        now_ms: u64,
    ) -> (r: Notification)
        ensures
            r@ == (NotificationModel {
                id,
                body: body@,
                expire_duration_ms,
                started_at_ms: now_ms,
                kind,
            }),
    {
        Notification {
            id,
            body: String::from_str(body),
            expire_duration_ms,
            started_at_ms: now_ms,
            kind,
        }
    }

    /// How much of the message's display time is left, in whole percent;
    /// nothing for a message without expiry.
    pub fn get_show_percentage_left(&self, now_ms: u64) -> (r: Option<u64>)
        requires
            self@.expire_duration_ms matches Some(e) ==> e >= 1000 && now_ms
                >= self@.started_at_ms && now_ms - self@.started_at_ms <= e,
        ensures
            match self@.expire_duration_ms {
                Some(e) => r == Some(
                    (100 - (((now_ms - self@.started_at_ms) as int / 1000) * 100) / (
                    e as int / 1000)) as u64,
                ),
                None => r is None,
            },
    {
        if let Some(expire) = self.expire_duration_ms {
            let left_secs = (now_ms - self.started_at_ms) / 1000;
            proof {
                assert(left_secs as int <= expire as int / 1000) by (nonlinear_arith)
                    requires
                        left_secs as int == (now_ms - self@.started_at_ms) as int / 1000,
                        (now_ms - self@.started_at_ms) as int <= expire as int,
                ;
                assert(left_secs as int * 100 <= (expire as int / 1000) * 100) by (nonlinear_arith)
                    requires
                        left_secs as int <= expire as int / 1000,
                ;
                assert((left_secs as int * 100) / (expire as int / 1000) <= 100) by (nonlinear_arith)
                    requires
                        expire as int / 1000 >= 1,
                        left_secs as int * 100 <= (expire as int / 1000) * 100,
                ;
            }
            return Some(100 - (left_secs * 100) / (expire / 1000));
        }
        None
    }
}


/// The body text of a batch summary.
pub open spec fn spec_batch_summary_body(
    failed_count: usize,
    elapsed: Seq<char>,
    emoji: Seq<char>,
) -> Seq<char> {
    if failed_count == 0 {
        ("All requests are finished in ")@ + elapsed + (" ")@ + emoji
    } else {
        ("All requests are finished in ")@ + elapsed + (". ")@ + crate::utils::dec_str(
            failed_count as nat,
        ) + (" failed ")@ + emoji + (".")@
    }
}

/// The message that ends a batch: a success for a clean run, a warning
/// naming the failed count otherwise; either way it shows for five seconds.
pub fn batch_summary_notification(
    failed_count: usize,
    elapsed: &str,
    emoji: &str,
    now_ms: u64,
) -> (r: Notification)
    ensures
        r@.id == (if failed_count == 0 {
            NotificationId::AllRequestsFinishedWithoutFails
        } else {
            NotificationId::AllRequestsFinishedWithFails
        }),
        r@.kind == (if failed_count == 0 {
            NotificationType::Success
        } else {
            NotificationType::Warning
        }),
        r@.expire_duration_ms == Some(5000u64),
        r@.started_at_ms == now_ms,
        r@.body == spec_batch_summary_body(failed_count, elapsed@, emoji@),
{
    let mut body = String::from_str("All requests are finished in ");
    body.append(elapsed);
    if failed_count == 0 {
        body.append(" ");
        body.append(emoji);
        Notification {
            id: NotificationId::AllRequestsFinishedWithoutFails,
            body,
            expire_duration_ms: Some(5000),
            started_at_ms: now_ms,
            kind: NotificationType::Success,
        }
    } else {
        body.append(". ");
        let count = crate::utils::u64_to_string(failed_count as u64);
        body.append(count.as_str());
        body.append(" failed ");
        body.append(emoji);
        body.append(".");
        Notification {
            id: NotificationId::AllRequestsFinishedWithFails,
            body,
            expire_duration_ms: Some(5000),
            started_at_ms: now_ms,
            kind: NotificationType::Warning,
        }
    }
}

} // verus!
