use vstd::prelude::*;
use crate::types::{AppError, ErrorModel, JobStatus};
use crate::job::{JobDTO, JobDtoModel, clone_requests, requests_model};
use crate::request::{Request, RespVariantModel};
use crate::diff::DiffTag;
use crate::notification::{Notification, NotificationModel, NotificationId, NotificationType};
use crate::config::{Configuration, DomainVariant, strs_model};

verus! {

/// The number of rows the logo picture has.
pub const LOGO_ROWS: usize = 6;

/// How many samples the downloaded-bytes ring holds.
pub const DOWNLOAD_RING: usize = 600;

#[derive(Clone, Copy, Debug, PartialEq, Eq, Structural)]
pub enum Screen {
    Home,
    JobInfo,
    Exception,
}

#[derive(Clone, Copy, Debug, PartialEq, Eq, Structural)]
pub enum ThemeType {
    Dark,
    Light,
}

/// How far the selected job's view may scroll, in columns and rows.
#[derive(Clone, Copy, Debug, PartialEq)]
pub struct ScrollBoundary {
    pub x: (usize, usize),
    pub y: (usize, usize),
}

impl ScrollBoundary {
    /// The bounds for a diff: as many rows as entries, columns up to the
    /// longest line with its index prefix.
    pub fn new(diffs: &Vec<(DiffTag, String)>) -> (r: ScrollBoundary)
        ensures
            r == spec_scroll_boundary(crate::diff::diffs_model(diffs@)),
    {
        let len = diffs.len();
        let digits = crate::utils::u64_to_string(len as u64);
        let digit_count = digits.as_str().unicode_len();
        let pad = if digit_count > len {
            digit_count
        } else {
            len
        };
        let prefix_len = if pad <= usize::MAX - 4 {
            pad + 4
        } else {
            usize::MAX
        };
        let mut max_line: usize = 0;
        let n = diffs.len();
        let mut i: usize = 0;
        while i < n
            invariant
                n == diffs@.len(),
                0 <= i <= n,
                max_line == spec_max_line(crate::diff::diffs_model(diffs@), i as int),
            decreases n - i,
        {
            let line_len = diffs[i].1.as_str().unicode_len();
            if line_len > max_line {
                max_line = line_len;
            }
            i = i + 1;
        }
        let x_max = if max_line <= usize::MAX - prefix_len {
            max_line + prefix_len
        } else {
            usize::MAX
        };
        proof {
            assert(dec_digit_count(len as nat) == digits@.len()) by {
                assert(digits@ == crate::utils::dec_str(len as nat));
            }
        }
        ScrollBoundary { x: (0, x_max), y: (0, len) }
    }
}

/// The number of characters the decimal rendering of `n` has.
pub open spec fn dec_digit_count(n: nat) -> nat {
    crate::utils::dec_str(n).len()
}

/// The longest line among the first `upto` entries.
pub open spec fn spec_max_line(diffs: Seq<(DiffTag, Seq<char>)>, upto: int) -> nat
    decreases upto,
{
    if upto <= 0 {
        0
    } else {
        let rest = spec_max_line(diffs, upto - 1);
        if diffs[upto - 1].1.len() > rest {
            diffs[upto - 1].1.len()
        } else {
            rest
        }
    }
}

/// The scroll bounds a diff view gets.
pub open spec fn spec_scroll_boundary(diffs: Seq<(DiffTag, Seq<char>)>) -> ScrollBoundary {
    let len = diffs.len() as nat;
    let digit_count = dec_digit_count(len);
    let pad = if digit_count > len {
        digit_count
    } else {
        len
    };
    let prefix_len: nat = if pad <= usize::MAX - 4 {
        (pad + 4) as nat
    } else {
        usize::MAX as nat
    };
    let max_line = spec_max_line(diffs, diffs.len() as int);
    let x_max: nat = if max_line <= usize::MAX - prefix_len {
        (max_line + prefix_len) as nat
    } else {
        usize::MAX as nat
    };
    ScrollBoundary { x: (0, x_max as usize), y: (0, len as usize) }
}

/// The state of the opened job view: which request's tab shows and how far
/// it is scrolled.
#[derive(Debug, PartialEq)]
pub struct SelectedJobState {
    pub tab_index: usize,
    pub job: JobDTO,
    pub vertical_scroll: usize,
    pub scroll_boundary: ScrollBoundary,
    pub scroll_step: usize,
}

pub ghost struct SelectedJobModel {
    pub tab_index: usize,
    pub job: JobDtoModel,
    pub vertical_scroll: usize,
    pub scroll_boundary: ScrollBoundary,
    pub scroll_step: usize,
}

impl View for SelectedJobState {
    type V = SelectedJobModel;

    open spec fn view(&self) -> SelectedJobModel {
        SelectedJobModel {
            tab_index: self.tab_index,
            job: self.job@,
            vertical_scroll: self.vertical_scroll,
            scroll_boundary: self.scroll_boundary,
            scroll_step: self.scroll_step,
        }
    }
}

impl SelectedJobState {
    /// Opens the view on one request's tab of a job.
    pub fn new(job: JobDTO, tab_index: usize) -> (r: SelectedJobState)
        requires
            tab_index < job@.requests.len(),
        ensures
            r@ == (SelectedJobModel {
                tab_index,
                job: job@,
                vertical_scroll: 0,
                scroll_boundary: spec_scroll_boundary(job@.requests[tab_index as int].diffs),
                scroll_step: 5,
            }),
    {
        let scroll_boundary = ScrollBoundary::new(&job.requests[tab_index].diffs);
        SelectedJobState { job, tab_index, scroll_boundary, vertical_scroll: 0, scroll_step: 5 }
    }

    /// Scrolls up by one step, not past the upper bound.
    pub fn scroll_up(&mut self)
        ensures
            final(self)@ == (SelectedJobModel {
                vertical_scroll: spec_scrolled_up(old(self)@),
                ..old(self)@
            }),
    {
        let stepped = if self.vertical_scroll >= self.scroll_step {
            self.vertical_scroll - self.scroll_step
        } else {
            0
        };
        self.vertical_scroll = if stepped >= self.scroll_boundary.y.0 {
            stepped
        } else {
            self.scroll_boundary.y.0
        };
    }

    /// Scrolls down by one step, not past the lower bound.
    pub fn scroll_down(&mut self)
        ensures
            final(self)@ == (SelectedJobModel {
                vertical_scroll: spec_scrolled_down(old(self)@),
                ..old(self)@
            }),
    {
        let stepped = if self.vertical_scroll <= usize::MAX - self.scroll_step {
            self.vertical_scroll + self.scroll_step
        } else {
            usize::MAX
        };
        self.vertical_scroll = if stepped <= self.scroll_boundary.y.1 {
            stepped
        } else {
            self.scroll_boundary.y.1
        };
    }
}

/// Where scrolling up by one step lands.
pub open spec fn spec_scrolled_up(s: SelectedJobModel) -> usize {
    let stepped: usize = if s.vertical_scroll >= s.scroll_step {
        (s.vertical_scroll - s.scroll_step) as usize
    } else {
        0
    };
    if stepped >= s.scroll_boundary.y.0 {
        stepped
    } else {
        s.scroll_boundary.y.0
    }
}

/// Where scrolling down by one step lands.
pub open spec fn spec_scrolled_down(s: SelectedJobModel) -> usize {
    let stepped: usize = if s.vertical_scroll <= usize::MAX - s.scroll_step {
        (s.vertical_scroll + s.scroll_step) as usize
    } else {
        usize::MAX
    };
    if stepped <= s.scroll_boundary.y.1 {
        stepped
    } else {
        s.scroll_boundary.y.1
    }
}

/// Everything the interface shows: the job table, the selection, the opened
/// job, the current message, and the mode flags.
#[derive(Debug, PartialEq)]
pub struct AppState {
    pub output_directory: String,
    pub selected_row: Option<usize>,
    pub jobs: Vec<JobDTO>,
    pub domains: Vec<String>,
    pub concurrency_level: usize,
    pub last_tick_ms: u64,
    pub content_length_downloaded_buffer: Vec<u64>,
    pub content_length_downloaded: Vec<u64>,
    pub notification: Option<Notification>,
    pub selected_job: Option<SelectedJobState>,
    pub should_show_help: bool,
    pub highlight_logo_row_index: usize,
    pub last_logo_change_ms: u64,
    pub should_quit: bool,
    pub critical_exception: Option<AppError>,
    pub current_screen: Screen,
    pub current_theme: ThemeType,
    pub is_headless_mode: bool,
}

pub ghost struct AppStateModel {
    pub output_directory: Seq<char>,
    pub selected_row: Option<usize>,
    pub jobs: Seq<JobDtoModel>,
    pub domains: Seq<Seq<char>>,
    pub concurrency_level: usize,
    pub last_tick_ms: u64,
    pub content_length_downloaded_buffer: Seq<u64>,
    pub content_length_downloaded: Seq<u64>,
    pub notification: Option<NotificationModel>,
    pub selected_job: Option<SelectedJobModel>,
    pub should_show_help: bool,
    pub highlight_logo_row_index: usize,
    pub last_logo_change_ms: u64,
    pub should_quit: bool,
    pub critical_exception: Option<ErrorModel>,
    pub current_screen: Screen,
    pub current_theme: ThemeType,
    pub is_headless_mode: bool,
}

/// The models of a list of job snapshots.
pub open spec fn jobs_model(s: Seq<JobDTO>) -> Seq<JobDtoModel> {
    Seq::new(s.len(), |i: int| s[i]@)
}

impl View for AppState {
    type V = AppStateModel;

    open spec fn view(&self) -> AppStateModel {
        AppStateModel {
            output_directory: self.output_directory@,
            selected_row: self.selected_row,
            jobs: jobs_model(self.jobs@),
            domains: strs_model(self.domains@),
            concurrency_level: self.concurrency_level,
            last_tick_ms: self.last_tick_ms,
            content_length_downloaded_buffer: self.content_length_downloaded_buffer@,
            content_length_downloaded: self.content_length_downloaded@,
            notification: match self.notification {
                Some(n) => Some(n@),
                None => None,
            },
            selected_job: match self.selected_job {
                Some(s) => Some(s@),
                None => None,
            },
            should_show_help: self.should_show_help,
            highlight_logo_row_index: self.highlight_logo_row_index,
            last_logo_change_ms: self.last_logo_change_ms,
            should_quit: self.should_quit,
            critical_exception: match self.critical_exception {
                Some(e) => Some(e@),
                None => None,
            },
            current_screen: self.current_screen,
            current_theme: self.current_theme,
            is_headless_mode: self.is_headless_mode,
        }
    }
}

/// The opened job view always shows an existing tab.
pub open spec fn app_inv(s: AppStateModel) -> bool {
    match s.selected_job {
        Some(sj) => sj.job.requests.len() > 0 && sj.tab_index < sj.job.requests.len(),
        None => true,
    }
}

/// A fresh state, before any configuration is loaded.
pub open spec fn spec_new_app_state(
    output_directory: Seq<char>,
    is_headless_mode: bool,
    now_ms: u64,
) -> AppStateModel {
    AppStateModel {
        output_directory,
        selected_row: None,
        jobs: Seq::empty(),
        domains: Seq::empty(),
        concurrency_level: 0,
        last_tick_ms: now_ms,
        content_length_downloaded_buffer: Seq::empty(),
        content_length_downloaded: Seq::new(DOWNLOAD_RING as nat, |i: int| 0u64),
        notification: None,
        selected_job: None,
        should_show_help: false,
        highlight_logo_row_index: 0,
        last_logo_change_ms: now_ms,
        should_quit: false,
        critical_exception: None,
        current_screen: Screen::Home,
        current_theme: ThemeType::Dark,
        is_headless_mode,
    }
}

impl AppState {
    /// A fresh state writing artifacts under `output_directory`.
    pub fn new(output_directory: &str, is_headless_mode: bool, now_ms: u64) -> (r: AppState)
        ensures
            r@ == spec_new_app_state(output_directory@, is_headless_mode, now_ms),
            app_inv(r@),
    {
        let mut ring: Vec<u64> = Vec::new();
        let mut i: usize = 0;
        while i < DOWNLOAD_RING
            invariant
                0 <= i <= DOWNLOAD_RING,
                ring@.len() == i,
                forall|j: int| 0 <= j < i ==> ring@[j] == 0u64,
            decreases DOWNLOAD_RING - i,
        {
            ring.push(0);
            i = i + 1;
        }
        let r = AppState {
            output_directory: String::from_str(output_directory),
            selected_row: None,
            jobs: Vec::new(),
            domains: Vec::new(),
            concurrency_level: 0,
            content_length_downloaded: ring,
            content_length_downloaded_buffer: Vec::new(),
            last_tick_ms: now_ms,
            notification: None,
            selected_job: None,
            should_show_help: false,
            should_quit: false,
            highlight_logo_row_index: 0,
            last_logo_change_ms: now_ms,
            current_screen: Screen::Home,
            current_theme: ThemeType::Dark,
            critical_exception: None,
            is_headless_mode,
        };
        proof {
            assert(r@.jobs =~= Seq::<JobDtoModel>::empty());
            assert(r@.domains =~= Seq::<Seq<char>>::empty());
            assert(r@.content_length_downloaded =~= Seq::new(DOWNLOAD_RING as nat, |i: int| 0u64));
        }
        r
    }

    /// Whether any job in the table failed.
    pub fn has_failed_jobs(&self) -> (r: bool)
        ensures
            r == exists|i: int|
                0 <= i < self@.jobs.len() && (#[trigger] self@.jobs[i]).status == JobStatus::Failed,
    {
        let n = self.jobs.len();
        let mut i: usize = 0;
        while i < n
            invariant
                n == self.jobs@.len(),
                0 <= i <= n,
                forall|j: int| 0 <= j < i ==> (#[trigger] self@.jobs[j]).status != JobStatus::Failed,
            decreases n - i,
        {
            if self.jobs[i].is_failed() {
                proof {
                    assert(self@.jobs[i as int].status == JobStatus::Failed);
                }
                return true;
            }
            i = i + 1;
        }
        false
    }

    /// Switches between the dark and the light theme.
    pub fn change_a_theme(&mut self)
        ensures
            final(self)@ == (AppStateModel {
                current_theme: (if old(self)@.current_theme == ThemeType::Dark {
                    ThemeType::Light
                } else {
                    ThemeType::Dark
                }),
                ..old(self)@
            }),
    {
        match self.current_theme {
            ThemeType::Dark => {
                self.current_theme = ThemeType::Light;
            }
            ThemeType::Light => {
                self.current_theme = ThemeType::Dark;
            }
        }
    }

    /// Latches a fatal error; the reducer then refuses most actions.
    pub fn set_critical_exception(&mut self, critical_exception: AppError)
        ensures
            final(self)@ == (AppStateModel {
                critical_exception: Some(critical_exception@),
                ..old(self)@
            }),
    {
        self.critical_exception = Some(critical_exception);
    }

    /// Moves the selection one row down, wrapping to the top.
    pub fn select_next_row(&mut self)
        ensures
            final(self)@ == (AppStateModel {
                selected_row: Some(spec_next_row(old(self)@)),
                ..old(self)@
            }),
    {
        let i: usize = match self.selected_row {
            Some(i) => {
                if self.jobs.len() == 0 {
                    0
                } else if i >= self.jobs.len() - 1 {
                    0
                } else {
                    i + 1
                }
            }
            None => 0,
        };
        self.selected_row = Some(i);
    }

    /// Moves the selection one row up, wrapping to the bottom.
    pub fn select_previous_row(&mut self)
        ensures
            final(self)@ == (AppStateModel {
                selected_row: Some(spec_previous_row(old(self)@)),
                ..old(self)@
            }),
    {
        let i: usize = match self.selected_row {
            Some(i) => {
                if self.jobs.len() == 0 {
                    0
                } else if i == 0 {
                    self.jobs.len() - 1
                } else {
                    i - 1
                }
            }
            None => 0,
        };
        self.selected_row = Some(i);
    }

    /// Selects the row of the job named `job_name`, when there is one.
    pub fn select_row_by_job_name(&mut self, job_name: &String)
        ensures
            final(self)@ == (AppStateModel {
                selected_row: spec_row_of_name(old(self)@, job_name@),
                ..old(self)@
            }),
    {
        let n = self.jobs.len();
        let mut i: usize = 0;
        while i < n
            invariant
                n == self.jobs@.len(),
                0 <= i <= n,
                self@ == old(self)@,
                forall|j: int| 0 <= j < i ==> (#[trigger] self@.jobs[j]).job_name != job_name@,
            decreases n - i,
        {
            if crate::types::string_eq(&self.jobs[i].job_name, job_name) {
                proof {
                    assert(self@.jobs[i as int].job_name == job_name@);
                    lemma_first_name(self@.jobs, job_name@, i as int);
                }
                self.selected_row = Some(i);
                return ;
            }
            i = i + 1;
        }
        proof {
            lemma_no_name(self@.jobs, job_name@);
        }
    }

    /// The selected row's index, or the first row.
    pub fn get_current_selected_row_index(&self) -> (r: usize)
        ensures
            r == spec_current_row(self@),
    {
        match self.selected_row {
            Some(i) => i,
            None => 0,
        }
    }

    /// A copy of the selected job, when a row is selected and in range.
    pub fn get_current_job(&self) -> (r: Option<JobDTO>)
        ensures
            match spec_current_job(self@) {
                Some(j) => r matches Some(x) && x@ == j,
                None => r is None,
            },
    {
        match self.selected_row {
            Some(i) => {
                if i < self.jobs.len() {
                    Some(self.jobs[i].clone())
                } else {
                    None
                }
            }
            None => None,
        }
    }

    /// Every failed job, in table order.
    pub fn get_failed_jobs(&self) -> (r: Vec<JobDTO>)
        ensures
            jobs_model(r@) == self@.jobs.filter(
                |j: JobDtoModel| j.status == JobStatus::Failed,
            ),
    {
        let ghost f = |j: JobDtoModel| j.status == JobStatus::Failed;
        let mut out: Vec<JobDTO> = Vec::new();
        let n = self.jobs.len();
        let mut i: usize = 0;
        proof {
            reveal(Seq::filter);
            assert(self@.jobs.take(0) =~= Seq::<JobDtoModel>::empty());
            assert(jobs_model(out@) =~= self@.jobs.take(0).filter(f));
        }
        while i < n
            invariant
                n == self.jobs@.len(),
                0 <= i <= n,
                f == (|j: JobDtoModel| j.status == JobStatus::Failed),
                jobs_model(out@) == self@.jobs.take(i as int).filter(f),
            decreases n - i,
        {
            let job = &self.jobs[i];
            proof {
                reveal(Seq::filter);
                let prefix = self@.jobs.take(i as int);
                let next = self@.jobs.take(i + 1);
                assert(next =~= prefix.push(job@));
                assert(next.drop_last() =~= prefix);
                assert(next.last() == job@);
            }
            if job.is_failed() {
                out.push(job.clone());
                proof {
                    assert(jobs_model(out@) =~= self@.jobs.take(i + 1).filter(f));
                }
            } else {
                proof {
                    assert(jobs_model(out@) =~= self@.jobs.take(i + 1).filter(f));
                }
            }
            i = i + 1;
        }
        proof {
            assert(self@.jobs.take(i as int) =~= self@.jobs);
        }
        out
    }

    /// Stores the given message.
    pub fn set_notification(&mut self, notification: Notification)
        ensures
            final(self)@ == (AppStateModel { notification: Some(notification@), ..old(self)@ }),
    {
        self.notification = Some(notification);
    }

    /// Takes the current message down.
    pub fn clear_notification(&mut self)
        ensures
            final(self)@ == (AppStateModel { notification: None, ..old(self)@ }),
    {
        self.notification = None;
    }

    /// Clears the table and closes the opened job.
    pub fn reset_jobs_state(&mut self)
        ensures
            final(self)@ == spec_reset_jobs(old(self)@),
            app_inv(final(self)@),
    {
        self.jobs = Vec::new();
        self.selected_job = None;
        self.selected_row = None;
        self.current_screen = Screen::Home;
        proof {
            assert(final(self)@.jobs =~= Seq::<JobDtoModel>::empty());
        }
    }

    /// Closes the opened job.
    pub fn reset_selected_job(&mut self)
        ensures
            final(self)@ == (AppStateModel { selected_job: None, ..old(self)@ }),
    {
        self.selected_job = None;
    }

    pub fn show_help_screen(&mut self)
        ensures
            final(self)@ == (AppStateModel { should_show_help: true, ..old(self)@ }),
    {
        self.should_show_help = true;
    }

    pub fn show_exception_screen(&mut self)
        ensures
            final(self)@ == (AppStateModel { current_screen: Screen::Exception, ..old(self)@ }),
    {
        self.current_screen = Screen::Exception;
    }

    pub fn close_help_screen(&mut self)
        ensures
            final(self)@ == (AppStateModel { should_show_help: false, ..old(self)@ }),
    {
        self.should_show_help = false;
    }

    pub fn set_should_quit(&mut self, should_quit: bool)
        ensures
            final(self)@ == (AppStateModel { should_quit, ..old(self)@ }),
    {
        self.should_quit = should_quit;
    }
}

/// Where the selection moves on a step down.
pub open spec fn spec_next_row(s: AppStateModel) -> usize {
    match s.selected_row {
        Some(i) => if s.jobs.len() == 0 {
            0
        } else if i >= s.jobs.len() - 1 {
            0
        } else {
            (i + 1) as usize
        },
        None => 0,
    }
}

/// Where the selection moves on a step up.
pub open spec fn spec_previous_row(s: AppStateModel) -> usize {
    match s.selected_row {
        Some(i) => if s.jobs.len() == 0 {
            0
        } else if i == 0 {
            (s.jobs.len() - 1) as usize
        } else {
            (i - 1) as usize
        },
        None => 0,
    }
}

/// The first row bearing `name`, if any; the selection is unchanged
/// otherwise.
pub open spec fn spec_row_of_name(s: AppStateModel, name: Seq<char>) -> Option<usize> {
    if exists|j: int| 0 <= j < s.jobs.len() && (#[trigger] s.jobs[j]).job_name == name {
        Some(first_name_index(s.jobs, name) as usize)
    } else {
        s.selected_row
    }
}

/// The first index bearing `name`.
pub open spec fn first_name_index(jobs: Seq<JobDtoModel>, name: Seq<char>) -> int
    decreases jobs.len(),
{
    if jobs.len() == 0 {
        0
    } else if jobs[0].job_name == name {
        0
    } else {
        1 + first_name_index(jobs.skip(1), name)
    }
}

proof fn lemma_first_name(jobs: Seq<JobDtoModel>, name: Seq<char>, i: int)
    requires
        0 <= i < jobs.len(),
        jobs[i].job_name == name,
        forall|j: int| 0 <= j < i ==> (#[trigger] jobs[j]).job_name != name,
    ensures
        first_name_index(jobs, name) == i,
        exists|j: int| 0 <= j < jobs.len() && (#[trigger] jobs[j]).job_name == name,
    decreases i,
{
    if i == 0 {
    } else {
        lemma_first_name(jobs.skip(1), name, i - 1);
        assert(jobs.skip(1)[i - 1] == jobs[i]);
        assert forall|j: int| 0 <= j < i - 1 implies (#[trigger] jobs.skip(1)[j]).job_name
            != name by {
            assert(jobs.skip(1)[j] == jobs[j + 1]);
        }
    }
}

proof fn lemma_no_name(jobs: Seq<JobDtoModel>, name: Seq<char>)
    requires
        forall|j: int| 0 <= j < jobs.len() ==> (#[trigger] jobs[j]).job_name != name,
    ensures
        !(exists|j: int| 0 <= j < jobs.len() && (#[trigger] jobs[j]).job_name == name),
{
}

/// The selected row, or the first.
pub open spec fn spec_current_row(s: AppStateModel) -> usize {
    match s.selected_row {
        Some(i) => i,
        None => 0,
    }
}

/// The job under the selection, when the selection is in range.
pub open spec fn spec_current_job(s: AppStateModel) -> Option<JobDtoModel> {
    match s.selected_row {
        Some(i) => if i < s.jobs.len() {
            Some(s.jobs[i as int])
        } else {
            None
        },
        None => None,
    }
}

/// The state after the table is cleared.
pub open spec fn spec_reset_jobs(s: AppStateModel) -> AppStateModel {
    AppStateModel {
        jobs: Seq::empty(),
        selected_job: None,
        selected_row: None,
        current_screen: Screen::Home,
        ..s
    }
}


// ------------------------- failed-job navigation -------------------------

/// The last failed index below `hi`, or -1.
pub open spec fn last_failed_before(jobs: Seq<JobDtoModel>, hi: int) -> int
    decreases hi,
{
    if hi <= 0 {
        -1
    } else if 0 <= hi - 1 < jobs.len() && jobs[hi - 1].status == JobStatus::Failed {
        hi - 1
    } else {
        last_failed_before(jobs, hi - 1)
    }
}

/// The first failed index at or after `lo`, or the length.
pub open spec fn first_failed_from(jobs: Seq<JobDtoModel>, lo: int) -> int
    decreases jobs.len() - lo,
{
    if lo < 0 || lo >= jobs.len() {
        jobs.len() as int
    } else if jobs[lo].status == JobStatus::Failed {
        lo
    } else {
        first_failed_from(jobs, lo + 1)
    }
}

/// The failed job shown when stepping backwards: the nearest failed row
/// above the selection, or the last failed row overall.
pub open spec fn spec_previous_failed(s: AppStateModel) -> Option<JobDtoModel> {
    let len = s.jobs.len() as int;
    let start = if spec_current_row(s) as int <= len {
        spec_current_row(s) as int
    } else {
        len
    };
    let before = last_failed_before(s.jobs, start);
    if before >= 0 {
        Some(s.jobs[before])
    } else {
        let overall = last_failed_before(s.jobs, len);
        if overall >= start {
            Some(s.jobs[overall])
        } else {
            None
        }
    }
}

/// The failed job shown when stepping forwards: the nearest failed row
/// below the selection, or the first failed row overall.
pub open spec fn spec_next_failed(s: AppStateModel) -> Option<JobDtoModel> {
    let len = s.jobs.len() as int;
    let start = if spec_current_row(s) as int + 1 <= len {
        spec_current_row(s) as int + 1
    } else {
        len
    };
    let after = first_failed_from(s.jobs, start);
    if after < len {
        Some(s.jobs[after])
    } else {
        let first = first_failed_from(s.jobs, 0);
        if first < start {
            Some(s.jobs[first])
        } else {
            None
        }
    }
}

proof fn lemma_last_failed_range(jobs: Seq<JobDtoModel>, hi: int)
    ensures
        hi >= 0 ==> last_failed_before(jobs, hi) < hi,
        last_failed_before(jobs, hi) >= 0 ==> 0 <= last_failed_before(jobs, hi) < jobs.len()
            && last_failed_before(jobs, hi) < hi && jobs[last_failed_before(jobs, hi)].status
            == JobStatus::Failed,
        forall|j: int|
            last_failed_before(jobs, hi) < j < hi && 0 <= j < jobs.len() ==> (#[trigger] jobs[j]).status
                != JobStatus::Failed,
    decreases hi,
{
    if hi <= 0 {
    } else if 0 <= hi - 1 < jobs.len() && jobs[hi - 1].status == JobStatus::Failed {
    } else {
        lemma_last_failed_range(jobs, hi - 1);
    }
}

proof fn lemma_first_failed_range(jobs: Seq<JobDtoModel>, lo: int)
    ensures
        0 <= lo <= jobs.len() ==> first_failed_from(jobs, lo) >= lo,
        first_failed_from(jobs, lo) < jobs.len() ==> 0 <= first_failed_from(jobs, lo)
            && jobs[first_failed_from(jobs, lo)].status == JobStatus::Failed,
        lo >= 0 ==> forall|j: int|
            lo <= j < first_failed_from(jobs, lo) && 0 <= j < jobs.len() ==> (#[trigger] jobs[j]).status
                != JobStatus::Failed,
    decreases jobs.len() - lo,
{
    if lo < 0 || lo >= jobs.len() {
    } else if jobs[lo].status == JobStatus::Failed {
    } else {
        lemma_first_failed_range(jobs, lo + 1);
    }
}

impl AppState {
    /// The nearest failed job above the selection, or the last failed one.
    #[verifier::loop_isolation(false)]
    pub fn get_previous_failed_job(&self) -> (r: Option<JobDTO>)
        ensures
            match spec_previous_failed(self@) {
                Some(j) => r matches Some(x) && x@ == j,
                None => r is None,
            },
    {
        let len = self.jobs.len();
        let cur = self.get_current_selected_row_index();
        let start = if cur <= len {
            cur
        } else {
            len
        };
        proof {
            lemma_last_failed_range(self@.jobs, start as int);
            lemma_last_failed_range(self@.jobs, len as int);
        }
        let mut k: usize = start;
        while k > 0
            invariant
                start <= len,
                len == self.jobs@.len(),
                0 <= k <= start,
                last_failed_before(self@.jobs, start as int) == last_failed_before(
                    self@.jobs,
                    k as int,
                ),
            decreases k,
        {
            if self.jobs[k - 1].is_failed() {
                proof {
                    assert(last_failed_before(self@.jobs, k as int) == k - 1);
                }
                return Some(self.jobs[k - 1].clone());
            }
            k = k - 1;
        }
        let mut m: usize = len;
        while m > 0
            invariant
                start <= len,
                len == self.jobs@.len(),
                0 <= m <= len,
                last_failed_before(self@.jobs, start as int) == -1,
                last_failed_before(self@.jobs, len as int) == last_failed_before(
                    self@.jobs,
                    m as int,
                ),
            decreases m,
        {
            if self.jobs[m - 1].is_failed() {
                proof {
                    assert(last_failed_before(self@.jobs, m as int) == m - 1);
                    lemma_last_failed_range(self@.jobs, start as int);
                }
                if m - 1 >= start {
                    return Some(self.jobs[m - 1].clone());
                } else {
                    return None;
                }
            }
            m = m - 1;
        }
        None
    }

    /// The nearest failed job below the selection, or the first failed one.
    #[verifier::loop_isolation(false)]
    pub fn get_next_failed_job(&self) -> (r: Option<JobDTO>)
        ensures
            match spec_next_failed(self@) {
                Some(j) => r matches Some(x) && x@ == j,
                None => r is None,
            },
    {
        let len = self.jobs.len();
        let cur = self.get_current_selected_row_index();
        let start = if cur < len {
            cur + 1
        } else {
            len
        };
        proof {
            lemma_first_failed_range(self@.jobs, start as int);
            lemma_first_failed_range(self@.jobs, 0);
        }
        let mut k: usize = start;
        while k < len
            invariant
                start <= len,
                len == self.jobs@.len(),
                start <= k <= len,
                first_failed_from(self@.jobs, start as int) == first_failed_from(
                    self@.jobs,
                    k as int,
                ),
            decreases len - k,
        {
            if self.jobs[k].is_failed() {
                proof {
                    assert(first_failed_from(self@.jobs, k as int) == k as int);
                }
                return Some(self.jobs[k].clone());
            }
            k = k + 1;
        }
        let mut m: usize = 0;
        while m < len
            invariant
                start <= len,
                len == self.jobs@.len(),
                0 <= m <= len,
                first_failed_from(self@.jobs, start as int) == len as int,
                first_failed_from(self@.jobs, 0) == first_failed_from(self@.jobs, m as int),
            decreases len - m,
        {
            if self.jobs[m].is_failed() {
                proof {
                    assert(first_failed_from(self@.jobs, m as int) == m as int);
                }
                if m < start {
                    return Some(self.jobs[m].clone());
                } else {
                    return None;
                }
            }
            m = m + 1;
        }
        None
    }
}

// ------------------------- the job table -------------------------

/// The content lengths a job's responses carry, zeroes dropped.
pub open spec fn spec_content_lengths(j: JobDtoModel) -> Seq<u64> {
    j.requests.map_values(
        |r: crate::request::RequestModel|
            match r.response {
                Some(RespVariantModel::Success(resp)) => match resp.content_length {
                    Some(n) => n,
                    None => 0u64,
                },
                _ => 0u64,
            },
    ).filter(|v: u64| v != 0)
}

/// The table with `j` upserted: the first row of the same name is replaced,
/// or a row is appended.
pub open spec fn spec_upsert_by_name(jobs: Seq<JobDtoModel>, j: JobDtoModel) -> Seq<JobDtoModel> {
    if exists|k: int| 0 <= k < jobs.len() && (#[trigger] jobs[k]).job_name == j.job_name {
        jobs.update(first_name_index(jobs, j.job_name), j)
    } else {
        jobs.push(j)
    }
}

/// One job folded into the state: its sizes buffered, its row upserted.
pub open spec fn spec_upsert_one(s: AppStateModel, j: JobDtoModel) -> AppStateModel {
    AppStateModel {
        content_length_downloaded_buffer: s.content_length_downloaded_buffer
            + spec_content_lengths(j),
        jobs: spec_upsert_by_name(s.jobs, j),
        ..s
    }
}

/// Every updated job folded into the state, left to right.
pub open spec fn spec_upsert_jobs(s: AppStateModel, updated: Seq<JobDtoModel>) -> AppStateModel
    decreases updated.len(),
{
    if updated.len() == 0 {
        s
    } else {
        spec_upsert_jobs(spec_upsert_one(s, updated[0]), updated.skip(1))
    }
}

proof fn lemma_upsert_jobs_push(s: AppStateModel, u: Seq<JobDtoModel>, x: JobDtoModel)
    ensures
        spec_upsert_jobs(s, u.push(x)) == spec_upsert_one(spec_upsert_jobs(s, u), x),
    decreases u.len(),
{
    if u.len() == 0 {
        assert(u.push(x)[0] == x);
        assert(u.push(x).skip(1) =~= Seq::<JobDtoModel>::empty());
        assert(spec_upsert_jobs(s, u.push(x)) == spec_upsert_jobs(
            spec_upsert_one(s, x),
            u.push(x).skip(1),
        ));
        assert(spec_upsert_jobs(spec_upsert_one(s, x), Seq::<JobDtoModel>::empty())
            == spec_upsert_one(s, x));
        assert(spec_upsert_jobs(s, u) == s);
    } else {
        lemma_upsert_jobs_push(spec_upsert_one(s, u[0]), u.skip(1), x);
        assert(u.push(x)[0] == u[0]);
        assert(u.push(x).skip(1) =~= u.skip(1).push(x));
    }
}

/// The rows that headless mode prints for a batch of updates: the jobs that
/// reached a terminal state.
pub open spec fn spec_terminal_jobs(updated: Seq<JobDtoModel>) -> Seq<JobDtoModel> {
    updated.filter(
        |j: JobDtoModel| j.status == JobStatus::Failed || j.status == JobStatus::Finished,
    )
}

impl AppState {
    /// Buffers the sizes a job's responses carried.
    pub fn append_job_content_length_vec(&mut self, updated_job: &JobDTO)
        ensures
            final(self)@ == (AppStateModel {
                content_length_downloaded_buffer: old(
                    self,
                )@.content_length_downloaded_buffer + spec_content_lengths(updated_job@),
                ..old(self)@
            }),
    {
        let ghost f = |v: u64| v != 0;
        let ghost mapper = |r: crate::request::RequestModel|
            match r.response {
                Some(RespVariantModel::Success(resp)) => match resp.content_length {
                    Some(n) => n,
                    None => 0u64,
                },
                _ => 0u64,
            };
        let n = updated_job.requests.len();
        let mut i: usize = 0;
        proof {
            reveal(Seq::filter);
            assert(updated_job@.requests.take(0).map_values(mapper) =~= Seq::<u64>::empty());
            assert(self@.content_length_downloaded_buffer =~= old(
                self,
            )@.content_length_downloaded_buffer + updated_job@.requests.take(0).map_values(
                mapper,
            ).filter(f));
        }
        while i < n
            invariant
                n == updated_job.requests@.len(),
                0 <= i <= n,
                f == (|v: u64| v != 0),
                mapper == (|r: crate::request::RequestModel|
                    match r.response {
                        Some(RespVariantModel::Success(resp)) => match resp.content_length {
                            Some(n) => n,
                            None => 0u64,
                        },
                        _ => 0u64,
                    }),
                self@ == (AppStateModel {
                    content_length_downloaded_buffer: old(
                        self,
                    )@.content_length_downloaded_buffer + updated_job@.requests.take(
                        i as int,
                    ).map_values(mapper).filter(f),
                    ..old(self)@
                }),
            decreases n - i,
        {
            let request = &updated_job.requests[i];
            let value: u64 = match &request.response {
                Some(crate::request::ResponseVariant::Success(resp)) => match resp.content_length {
                    Some(n) => n,
                    None => 0,
                },
                _ => 0,
            };
            proof {
                reveal(Seq::filter);
                let prefix = updated_job@.requests.take(i as int).map_values(mapper);
                let next = updated_job@.requests.take(i + 1).map_values(mapper);
                assert(updated_job@.requests.take(i + 1) =~= updated_job@.requests.take(
                    i as int,
                ).push(request@));
                assert(next =~= prefix.push(mapper(request@)));
                assert(next.drop_last() =~= prefix);
                assert(next.last() == mapper(request@));
                assert(mapper(request@) == value);
            }
            if value != 0 {
                self.content_length_downloaded_buffer.push(value);
            }
            proof {
                assert(self@.content_length_downloaded_buffer =~= old(
                    self,
                )@.content_length_downloaded_buffer + updated_job@.requests.take(i + 1).map_values(
                    mapper,
                ).filter(f));
            }
            i = i + 1;
        }
        proof {
            assert(updated_job@.requests.take(i as int) =~= updated_job@.requests);
        }
    }

    /// Folds a batch of job snapshots into the table and hands back the ones
    /// that reached a terminal state, for headless printing.
    pub fn upsert_jobs(&mut self, updated_jobs: Vec<JobDTO>) -> (terminal: Vec<JobDTO>)
        ensures
            final(self)@ == spec_upsert_jobs(old(self)@, jobs_model(updated_jobs@)),
            jobs_model(terminal@) == spec_terminal_jobs(jobs_model(updated_jobs@)),
    {
        let ghost um = jobs_model(updated_jobs@);
        let ghost tf = |j: JobDtoModel| j.status == JobStatus::Failed || j.status
            == JobStatus::Finished;
        let mut terminal: Vec<JobDTO> = Vec::new();
        let n = updated_jobs.len();
        let mut i: usize = 0;
        proof {
            reveal(Seq::filter);
            assert(um.take(0) =~= Seq::<JobDtoModel>::empty());
            assert(self@ == spec_upsert_jobs(old(self)@, um.take(0)));
            assert(jobs_model(terminal@) =~= um.take(0).filter(tf));
        }
        while i < n
            invariant
                n == updated_jobs@.len(),
                um == jobs_model(updated_jobs@),
                0 <= i <= n,
                tf == (|j: JobDtoModel| j.status == JobStatus::Failed || j.status
                    == JobStatus::Finished),
                self@ == spec_upsert_jobs(old(self)@, um.take(i as int)),
                jobs_model(terminal@) == um.take(i as int).filter(tf),
            decreases n - i,
        {
            let updated_job = &updated_jobs[i];
            proof {
                reveal(Seq::filter);
                lemma_upsert_jobs_push(old(self)@, um.take(i as int), um[i as int]);
                assert(um.take(i + 1) =~= um.take(i as int).push(um[i as int]));
                assert(um.take(i + 1).drop_last() =~= um.take(i as int));
                assert(um.take(i + 1).last() == um[i as int]);
            }
            let is_terminal = matches!(updated_job.status, JobStatus::Failed)
                || matches!(updated_job.status, JobStatus::Finished);
            if is_terminal {
                terminal.push(updated_job.clone());
            }
            proof {
                assert(jobs_model(terminal@) =~= um.take(i + 1).filter(tf));
            }
            self.append_job_content_length_vec(updated_job);
            self.upsert_one_job(updated_job);
            i = i + 1;
        }
        proof {
            assert(um.take(i as int) =~= um);
        }
        terminal
    }

    /// Replaces the first row of the same name, or appends a new row.
    fn upsert_one_job(&mut self, updated_job: &JobDTO)
        ensures
            final(self)@ == (AppStateModel {
                jobs: spec_upsert_by_name(old(self)@.jobs, updated_job@),
                ..old(self)@
            }),
    {
        let n = self.jobs.len();
        let mut i: usize = 0;
        while i < n
            invariant
                n == self.jobs@.len(),
                self@ == old(self)@,
                0 <= i <= n,
                forall|j: int|
                    0 <= j < i ==> (#[trigger] self@.jobs[j]).job_name != updated_job@.job_name,
            decreases n - i,
        {
            if crate::types::string_eq(&self.jobs[i].job_name, &updated_job.job_name) {
                proof {
                    assert(self@.jobs[i as int].job_name == updated_job@.job_name);
                    lemma_first_name(self@.jobs, updated_job@.job_name, i as int);
                }
                let ghost prev = self.jobs@;
                let cloned = updated_job.clone();
                let ghost cv = cloned;
                self.jobs.remove(i);
                self.jobs.insert(i, cloned);
                proof {
                    assert(self.jobs@ =~= prev.update(i as int, cv));
                    assert forall|j: int| 0 <= j < n implies #[trigger] jobs_model(self.jobs@)[j]
                        == spec_upsert_by_name(jobs_model(prev), updated_job@)[j] by {
                        assert(self.jobs@[j] == if j == i as int {
                            cv
                        } else {
                            prev[j]
                        });
                    }
                    assert(jobs_model(self.jobs@) =~= spec_upsert_by_name(
                        jobs_model(prev),
                        updated_job@,
                    ));
                }
                return ;
            }
            i = i + 1;
        }
        proof {
            lemma_no_name(self@.jobs, updated_job@.job_name);
        }
        let ghost prev = self.jobs@;
        let cloned = updated_job.clone();
        let ghost cv = cloned;
        self.jobs.push(cloned);
        proof {
            assert(jobs_model(self.jobs@) =~= spec_upsert_by_name(jobs_model(prev), updated_job@));
        }
    }
}

// ------------------------- the download ring -------------------------

/// The sum of the buffered sizes, stopping at the largest value rather than
/// wrapping.
pub open spec fn spec_sat_sum(s: Seq<u64>) -> u64
    decreases s.len(),
{
    if s.len() == 0 {
        0u64
    } else {
        let rest = spec_sat_sum(s.drop_last());
        if rest + s.last() <= u64::MAX {
            (rest + s.last()) as u64
        } else {
            u64::MAX as u64
        }
    }
}

/// The ring with the newest sample written and every sample shifted one
/// step.
pub open spec fn spec_absorb_buffer(s: AppStateModel) -> AppStateModel {
    let v = spec_sat_sum(s.content_length_downloaded_buffer);
    let ring0 = s.content_length_downloaded;
    let ring1 = if ring0.len() > 0 {
        ring0.update(0, v)
    } else {
        ring0
    };
    let ring2 = if ring1.len() > 0 {
        seq![ring1.last()] + ring1.drop_last()
    } else {
        ring1
    };
    AppStateModel {
        content_length_downloaded_buffer: Seq::empty(),
        content_length_downloaded: ring2,
        ..s
    }
}

impl AppState {
    /// Writes `new_value` into the newest ring slot.
    pub fn assign_value_to_last_vec_element(&mut self, new_value: u64)
        ensures
            final(self)@ == (AppStateModel {
                content_length_downloaded: (if old(self)@.content_length_downloaded.len() > 0 {
                    old(self)@.content_length_downloaded.update(0, new_value)
                } else {
                    old(self)@.content_length_downloaded
                }),
                ..old(self)@
            }),
    {
        if self.content_length_downloaded.len() > 0 {
            self.content_length_downloaded.set(0, new_value);
        }
    }

    /// Rotates the ring one step; optionally zeroes the newest slot.
    pub fn shift_content_length_vec(&mut self, should_pad_with_zero: bool)
        ensures
            final(self)@ == (AppStateModel {
                content_length_downloaded: spec_shift_ring(
                    old(self)@.content_length_downloaded,
                    should_pad_with_zero,
                ),
                ..old(self)@
            }),
    {
        if self.content_length_downloaded.len() > 0 {
            let last = self.content_length_downloaded.pop().unwrap();
            self.content_length_downloaded.insert(0, last);
            if should_pad_with_zero {
                self.content_length_downloaded.set(0, 0);
            }
            proof {
                assert(self@.content_length_downloaded =~= spec_shift_ring(
                    old(self)@.content_length_downloaded,
                    should_pad_with_zero,
                ));
            }
        }
    }

    /// Sums the buffer into the newest slot and advances the ring.
    pub fn clear_out_buffered_downloaded_data_indication(&mut self)
        ensures
            final(self)@ == spec_absorb_buffer(old(self)@),
    {
        let mut value: u64 = 0;
        let n = self.content_length_downloaded_buffer.len();
        let mut i: usize = 0;
        proof {
            assert(self@.content_length_downloaded_buffer.take(0) =~= Seq::<u64>::empty());
        }
        while i < n
            invariant
                n == self.content_length_downloaded_buffer@.len(),
                self@ == old(self)@,
                0 <= i <= n,
                value == spec_sat_sum(old(self)@.content_length_downloaded_buffer.take(i as int)),
            decreases n - i,
        {
            let x = self.content_length_downloaded_buffer[i];
            proof {
                let pre = old(self)@.content_length_downloaded_buffer.take(i as int);
                let post = old(self)@.content_length_downloaded_buffer.take(i + 1);
                assert(post.drop_last() =~= pre);
                assert(post.last() == x);
            }
            if value <= u64::MAX - x {
                value = value + x;
            } else {
                value = u64::MAX;
            }
            i = i + 1;
        }
        proof {
            assert(old(self)@.content_length_downloaded_buffer.take(i as int) =~= old(
                self,
            )@.content_length_downloaded_buffer);
        }
        self.content_length_downloaded_buffer = Vec::new();
        self.assign_value_to_last_vec_element(value);
        self.shift_content_length_vec(false);
        proof {
            assert(final(self)@.content_length_downloaded_buffer =~= Seq::<u64>::empty());
        }
    }
}

/// The ring after one step: the oldest slot comes to the front, optionally
/// zeroed.
pub open spec fn spec_shift_ring(ring: Seq<u64>, pad: bool) -> Seq<u64> {
    if ring.len() == 0 {
        ring
    } else {
        let rotated = seq![ring.last()] + ring.drop_last();
        if pad {
            rotated.update(0, 0u64)
        } else {
            rotated
        }
    }
}


// ------------------------- the opened job -------------------------

/// The requests reordered for the view: those with differences first, the
/// rest after, each side in original order.
pub open spec fn spec_sort_by_diffs(requests: Seq<crate::request::RequestModel>) -> Seq<
    crate::request::RequestModel,
> {
    requests.filter(|r: crate::request::RequestModel| r.has_diffs) + requests.filter(
        |r: crate::request::RequestModel| !r.has_diffs,
    )
}

proof fn lemma_sort_by_diffs_len(s: Seq<crate::request::RequestModel>)
    ensures
        spec_sort_by_diffs(s).len() == s.len(),
    decreases s.len(),
{
    reveal(Seq::filter);
    if s.len() > 0 {
        lemma_sort_by_diffs_len(s.drop_last());
        assert(spec_sort_by_diffs(s.drop_last()).len() == s.drop_last().len());
    }
}

/// What opening a job does: a running job only raises a warning; a job
/// without requests does nothing; otherwise the view opens on the job with
/// its differing requests first.
pub open spec fn spec_set_selected(s: AppStateModel, job: JobDtoModel, now_ms: u64) -> (
    AppStateModel,
    Option<NotificationModel>,
) {
    if job.status == JobStatus::Pending || job.status == JobStatus::Running {
        (
            s,
            Some(
                NotificationModel {
                    id: NotificationId::PendingJobInfoError,
                    body: ("The job is still executing. Please, wait")@,
                    expire_duration_ms: Some(2000u64),
                    started_at_ms: now_ms,
                    kind: NotificationType::Warning,
                },
            ),
        )
    } else if job.requests.len() == 0 {
        (s, None)
    } else {
        let sorted = JobDtoModel { requests: spec_sort_by_diffs(job.requests), ..job };
        let s1 = AppStateModel {
            current_screen: Screen::JobInfo,
            selected_row: spec_row_of_name(s, job.job_name),
            selected_job: Some(
                SelectedJobModel {
                    tab_index: 0,
                    job: sorted,
                    vertical_scroll: 0,
                    scroll_boundary: spec_scroll_boundary(sorted.requests[0].diffs),
                    scroll_step: 5,
                },
            ),
            ..s
        };
        (s1, None)
    }
}

impl AppState {
    /// Opens the view on a finished job; a still-running job only raises a
    /// warning.
    pub fn set_selected_job(&mut self, job: JobDTO, now_ms: u64) -> (r: Option<Notification>)
        ensures
            final(self)@ == spec_set_selected(old(self)@, job@, now_ms).0,
            match spec_set_selected(old(self)@, job@, now_ms).1 {
                Some(n) => r matches Some(x) && x@ == n,
                None => r is None,
            },
            app_inv(old(self)@) ==> app_inv(final(self)@),
    {
        if matches!(job.status, JobStatus::Pending) || matches!(job.status, JobStatus::Running) {
            return Some(
                Notification::new(
                    NotificationId::PendingJobInfoError,
                    "The job is still executing. Please, wait",
                    Some(2000),
                    NotificationType::Warning,
                    now_ms,
                ),
            );
        }
        if job.requests.len() == 0 {
            return None;
        }
        self.current_screen = Screen::JobInfo;
        self.select_row_by_job_name(&job.job_name);
        let ghost jm = job@;
        let JobDTO { requests, status, job_duration, job_name } = job;
        let sorted_requests = sort_requests_by_diffs(requests);
        let sorted = JobDTO { requests: sorted_requests, status, job_duration, job_name };
        proof {
            lemma_sort_by_diffs_len(jm.requests);
            assert(sorted@.requests.len() == jm.requests.len());
        }
        let state = SelectedJobState::new(sorted, 0);
        self.selected_job = Some(state);
        None
    }
}

/// Reorders requests so that those with differences come first, keeping
/// each side's order.
fn sort_requests_by_diffs(requests: Vec<Request>) -> (r: Vec<Request>)
    ensures
        requests_model(r@) == spec_sort_by_diffs(requests_model(requests@)),
{
    let ghost rm = requests_model(requests@);
    let ghost pt = |r: crate::request::RequestModel| r.has_diffs;
    let ghost pf = |r: crate::request::RequestModel| !r.has_diffs;
    let mut with_diffs: Vec<Request> = Vec::new();
    let mut without: Vec<Request> = Vec::new();
    let n = requests.len();
    let mut i: usize = 0;
    proof {
        reveal(Seq::filter);
        assert(rm.take(0) =~= Seq::<crate::request::RequestModel>::empty());
        assert(requests_model(with_diffs@) =~= rm.take(0).filter(pt));
        assert(requests_model(without@) =~= rm.take(0).filter(pf));
    }
    while i < n
        invariant
            n == requests@.len(),
            rm == requests_model(requests@),
            0 <= i <= n,
            pt == (|r: crate::request::RequestModel| r.has_diffs),
            pf == (|r: crate::request::RequestModel| !r.has_diffs),
            requests_model(with_diffs@) == rm.take(i as int).filter(pt),
            requests_model(without@) == rm.take(i as int).filter(pf),
        decreases n - i,
    {
        let request = &requests[i];
        proof {
            reveal(Seq::filter);
            assert(rm.take(i + 1) =~= rm.take(i as int).push(request@));
            assert(rm.take(i + 1).drop_last() =~= rm.take(i as int));
            assert(rm.take(i + 1).last() == request@);
        }
        if request.has_diffs {
            with_diffs.push(request.clone());
        } else {
            without.push(request.clone());
        }
        proof {
            assert(requests_model(with_diffs@) =~= rm.take(i + 1).filter(pt));
            assert(requests_model(without@) =~= rm.take(i + 1).filter(pf));
        }
        i = i + 1;
    }
    proof {
        assert(rm.take(i as int) =~= rm);
    }
    let mut out = with_diffs;
    let ghost head = requests_model(out@);
    let m = without.len();
    let mut k: usize = 0;
    while k < m
        invariant
            m == without@.len(),
            0 <= k <= m,
            out@.len() == head.len() + k,
            forall|j: int| 0 <= j < head.len() ==> (#[trigger] out@[j])@ == head[j],
            forall|j: int|
                0 <= j < k ==> (#[trigger] out@[head.len() + j])@ == requests_model(without@)[j],
        decreases m - k,
    {
        out.push(without[k].clone());
        k = k + 1;
    }
    proof {
        assert forall|idx: int| 0 <= idx < out@.len() implies #[trigger] requests_model(out@)[idx]
            == (head + requests_model(without@))[idx] by {
            if idx < head.len() {
                assert(out@[idx]@ == head[idx]);
            } else {
                assert(out@[head.len() + (idx - head.len())]@ == requests_model(without@)[idx
                    - head.len()]);
            }
        }
        assert(requests_model(out@) =~= head + requests_model(without@));
        assert(head + requests_model(without@) =~= spec_sort_by_diffs(requests_model(requests@)));
    }
    out
}

// ------------------------- messages and ticks -------------------------

/// The state with an expired message taken down at `now_ms`.
pub open spec fn spec_expire_notification(s: AppStateModel, now_ms: u64) -> AppStateModel {
    match s.notification {
        Some(n) => match n.expire_duration_ms {
            Some(e) => if now_ms >= n.started_at_ms && now_ms - n.started_at_ms >= e {
                AppStateModel { notification: None, ..s }
            } else {
                s
            },
            None => s,
        },
        None => s,
    }
}

/// What one clock tick does: every 200 milliseconds the download ring
/// advances and an expired message is taken down; every 800 milliseconds
/// the logo highlight moves one row.
pub open spec fn spec_on_tick(s: AppStateModel, now_ms: u64) -> AppStateModel {
    let s1 = if now_ms - s.last_tick_ms >= 200 {
        spec_expire_notification(
            spec_absorb_buffer(AppStateModel { last_tick_ms: now_ms, ..s }),
            now_ms,
        )
    } else {
        s
    };
    if now_ms - s1.last_logo_change_ms >= 800 {
        AppStateModel {
            last_logo_change_ms: now_ms,
            highlight_logo_row_index: ((s1.highlight_logo_row_index as int + 1) % (
            LOGO_ROWS as int)) as usize,
            ..s1
        }
    } else {
        s1
    }
}

impl AppState {
    /// Takes an expired message down.
    pub fn check_and_clear_expired_notification(&mut self, now_ms: u64)
        ensures
            final(self)@ == spec_expire_notification(old(self)@, now_ms),
    {
        let should_clear = match &self.notification {
            Some(notification) => match notification.expire_duration_ms {
                Some(expiry) => now_ms >= notification.started_at_ms && now_ms
                    - notification.started_at_ms >= expiry,
                None => false,
            },
            None => false,
        };
        if should_clear {
            self.notification = None;
        }
    }

    /// Advances the clocks: the download ring, message expiry and the logo
    /// highlight.
    pub fn on_tick(&mut self, now_ms: u64)
        requires
            now_ms >= old(self)@.last_tick_ms,
            now_ms >= old(self)@.last_logo_change_ms,
        ensures
            final(self)@ == spec_on_tick(old(self)@, now_ms),
    {
        if now_ms - self.last_tick_ms >= 200 {
            self.last_tick_ms = now_ms;
            self.clear_out_buffered_downloaded_data_indication();
            self.check_and_clear_expired_notification(now_ms);
        }
        if now_ms - self.last_logo_change_ms >= 800 {
            self.last_logo_change_ms = now_ms;
            let ghost before: int = self.highlight_logo_row_index as int;
            self.highlight_logo_row_index = (self.highlight_logo_row_index % LOGO_ROWS + 1)
                % LOGO_ROWS;
            proof {
                assert((before % (LOGO_ROWS as int) + 1) % (LOGO_ROWS as int) == (before + 1) % (
                LOGO_ROWS as int)) by (nonlinear_arith);
            }
        }
    }
}

/// The domain URLs a configuration shows in the table header.
pub open spec fn spec_domain_strings(c: crate::config::ConfigModel) -> Seq<Seq<char>> {
    Seq::new(c.domains.len(), |i: int| crate::mapper::spec_domain_url(c.domains[i]))
}

/// What loading a configuration does to the state: the domain list and the
/// concurrency level are taken over, a latched error is cleared, and the
/// table is reset.
pub open spec fn spec_on_config_load(s: AppStateModel, c: crate::config::ConfigModel) -> AppStateModel {
    spec_reset_jobs(
        AppStateModel {
            domains: spec_domain_strings(c),
            concurrency_level: c.concurrent_jobs,
            critical_exception: None,
            ..s
        },
    )
}

impl AppState {
    /// Takes a loaded configuration over and hands back the table header
    /// texts for headless mode.
    pub fn on_configuration_load(&mut self, configuration: &Configuration) -> (headers: Vec<
        String,
    >)
        ensures
            final(self)@ == spec_on_config_load(old(self)@, configuration@),
            strs_model(headers@) == seq![("Endpoint")@] + spec_domain_strings(configuration@),
            app_inv(final(self)@),
    {
        let mut domains: Vec<String> = Vec::new();
        let n = configuration.domains.len();
        let mut i: usize = 0;
        while i < n
            invariant
                n == configuration.domains@.len(),
                self@ == old(self)@,
                0 <= i <= n,
                domains@.len() == i,
                forall|j: int|
                    0 <= j < i ==> (#[trigger] domains@[j])@ == crate::mapper::spec_domain_url(
                        configuration@.domains[j],
                    ),
            decreases n - i,
        {
            let url = match &configuration.domains[i] {
                DomainVariant::Url(u) => u.clone(),
                DomainVariant::UrlWithHeaders(uh) => uh.domain.clone(),
            };
            domains.push(url);
            i = i + 1;
        }
        let mut headers: Vec<String> = Vec::new();
        headers.push(String::from_str("Endpoint"));
        let m = domains.len();
        let mut k: usize = 0;
        while k < m
            invariant
                m == domains@.len(),
                self@ == old(self)@,
                0 <= k <= m,
                headers@.len() == k + 1,
                headers@[0]@ == ("Endpoint")@,
                forall|j: int| 0 <= j < k ==> (#[trigger] headers@[j + 1])@ == domains@[j]@,
            decreases m - k,
        {
            headers.push(domains[k].clone());
            k = k + 1;
        }
        self.domains = domains;
        self.concurrency_level = configuration.concurrent_jobs;
        self.critical_exception = None;
        self.reset_jobs_state();
        proof {
            assert(strs_model(self.domains@) =~= spec_domain_strings(configuration@));
            let want = seq![("Endpoint")@] + spec_domain_strings(configuration@);
            assert forall|idx: int| 0 <= idx < headers@.len() implies #[trigger] strs_model(
                headers@,
            )[idx] == want[idx] by {
                if idx == 0 {
                    assert(headers@[0]@ == ("Endpoint")@);
                } else {
                    assert(headers@[(idx - 1) + 1]@ == domains@[idx - 1]@);
                    assert(domains@[idx - 1]@ == crate::mapper::spec_domain_url(
                        configuration@.domains[idx - 1],
                    ));
                }
            }
            assert(strs_model(headers@) =~= want);
        }
        headers
    }
}

/// The message shown while jobs are being prepared, when one should show:
/// either no message shows yet and the counts differ, or the progress
/// message itself is already showing.
pub open spec fn spec_progress_notification(
    s: AppStateModel,
    current: usize,
    total: usize,
    now_ms: u64,
) -> Option<NotificationModel> {
    let displayed = s.notification is Some;
    let matches_id = match s.notification {
        Some(n) => n.id == NotificationId::JobProgressChange,
        None => false,
    };
    if (!displayed && current != total) || matches_id {
        Some(
            NotificationModel {
                id: NotificationId::JobProgressChange,
                body: ("Mapped ")@ + crate::utils::dec_str(current as nat) + (" out of ")@
                    + crate::utils::dec_str(total as nat) + (" requests.")@,
                expire_duration_ms: Some(2000u64),
                started_at_ms: now_ms,
                kind: NotificationType::Success,
            },
        )
    } else {
        None
    }
}

impl AppState {
    /// The progress message to show after one request was prepared, if any.
    pub fn on_load_jobs_progress_change(&self, current: usize, total: usize, now_ms: u64) -> (r:
        Option<Notification>)
        ensures
            match spec_progress_notification(self@, current, total, now_ms) {
                Some(n) => r matches Some(x) && x@ == n,
                None => r is None,
            },
    {
        let is_notification_displayed_currently = self.notification.is_some();
        let are_sizes_different = current != total;
        let displayed_notification_id_matches = match &self.notification {
            Some(n) => matches!(n.id, NotificationId::JobProgressChange),
            None => false,
        };
        let should_issue_notification = (!is_notification_displayed_currently
            && are_sizes_different) || displayed_notification_id_matches;
        if should_issue_notification {
            let mut body = String::from_str("Mapped ");
            let cs = crate::utils::u64_to_string(current as u64);
            body.append(cs.as_str());
            body.append(" out of ");
            let ts = crate::utils::u64_to_string(total as u64);
            body.append(ts.as_str());
            body.append(" requests.");
            let n = Notification {
                id: NotificationId::JobProgressChange,
                body,
                expire_duration_ms: Some(2000),
                started_at_ms: now_ms,
                kind: NotificationType::Success,
            };
            return Some(n);
        }
        None
    }
}

// ------------------------- diff navigation -------------------------

/// Whether `idx` starts a run of changed lines: it is changed and its ring
/// predecessor is not.
pub open spec fn is_group_start(d: Seq<(DiffTag, Seq<char>)>, idx: int) -> bool {
    let prev = if idx == 0 {
        d.len() - 1
    } else {
        idx - 1
    };
    d[idx].0 != DiffTag::Equal && d[prev].0 == DiffTag::Equal
}

/// Walks the diff ring from `cur`, forward or backward, for at most `fuel`
/// further steps, stopping at a group start or when the walk comes back to
/// `stop`.
pub open spec fn spec_scan_group(
    d: Seq<(DiffTag, Seq<char>)>,
    cur: int,
    stop: int,
    reversed: bool,
    fuel: nat,
) -> Option<int>
    decreases fuel,
{
    if is_group_start(d, cur) {
        Some(cur)
    } else if fuel == 0 {
        None
    } else {
        let nxt = if !reversed {
            (cur + 1) % (d.len() as int)
        } else {
            if cur == 0 {
                d.len() - 1
            } else {
                cur - 1
            }
        };
        if nxt == stop {
            None
        } else {
            spec_scan_group(d, nxt, stop, reversed, (fuel - 1) as nat)
        }
    }
}

/// The first start of a changed run met when walking from `start_index`.
pub open spec fn spec_find_group(
    d: Seq<(DiffTag, Seq<char>)>,
    start_index: usize,
    reversed: bool,
) -> Option<int> {
    let clamped = if start_index as int <= d.len() - 1 {
        start_index as int
    } else {
        d.len() - 1
    };
    spec_scan_group(d, clamped, start_index as int, reversed, d.len() as nat)
}

impl AppState {
    /// Finds the next run of changed lines in a diff, walking the entries
    /// as a ring from `start_index`.
    #[verifier::loop_isolation(false)]
    pub fn find_next_diff_group(
        start_index: usize,
        diffs: &Vec<(DiffTag, String)>,
        is_reversed_search: bool,
    ) -> (r: Option<usize>)
        requires
            diffs@.len() > 0,
        ensures
            match spec_find_group(crate::diff::diffs_model(diffs@), start_index, is_reversed_search) {
                Some(g) => r matches Some(x) && x as int == g,
                None => r is None,
            },
    {
        let ghost dm = crate::diff::diffs_model(diffs@);
        let len = diffs.len();
        let last_element_index = len - 1;
        let mut current_index = if start_index <= last_element_index {
            start_index
        } else {
            last_element_index
        };
        let mut fuel: usize = len;
        loop
            invariant
                len == dm.len(),
                len > 0,
                0 <= current_index < len,
                fuel <= len,
                spec_find_group(dm, start_index, is_reversed_search) == spec_scan_group(
                    dm,
                    current_index as int,
                    start_index as int,
                    is_reversed_search,
                    fuel as nat,
                ),
            decreases fuel + 1,
        {
            let prev_index = if current_index == 0 {
                last_element_index
            } else {
                current_index - 1
            };
            let current_is_change = !matches!(diffs[current_index].0, DiffTag::Equal);
            let prev_is_equal = matches!(diffs[prev_index].0, DiffTag::Equal);
            if current_is_change && prev_is_equal {
                proof {
                    assert(is_group_start(dm, current_index as int));
                }
                return Some(current_index);
            }
            proof {
                assert(!is_group_start(dm, current_index as int));
            }
            if fuel == 0 {
                return None;
            }
            let next_index = if !is_reversed_search {
                (current_index + 1) % len
            } else {
                if current_index == 0 {
                    last_element_index
                } else {
                    current_index - 1
                }
            };
            proof {
                assert(next_index as int == (if !is_reversed_search {
                    (current_index as int + 1) % (dm.len() as int)
                } else {
                    if current_index as int == 0 {
                        dm.len() - 1
                    } else {
                        current_index as int - 1
                    }
                }));
            }
            if next_index == start_index {
                return None;
            }
            current_index = next_index;
            fuel = fuel - 1;
        }
    }
}

/// The opened view moved to the next run of changed lines, if any.
pub open spec fn spec_go_to_diff(s: AppStateModel, reversed: bool) -> AppStateModel {
    match s.selected_job {
        Some(sj) => {
            let diffs = sj.job.requests[sj.tab_index as int].diffs;
            if diffs.len() == 0 {
                s
            } else {
                let from: usize = if !reversed {
                    if sj.vertical_scroll <= usize::MAX - 1 && sj.vertical_scroll + 1
                        <= diffs.len() {
                        (sj.vertical_scroll + 1) as usize
                    } else {
                        if diffs.len() <= usize::MAX {
                            diffs.len() as usize
                        } else {
                            usize::MAX
                        }
                    }
                } else {
                    if sj.vertical_scroll >= 1 {
                        (sj.vertical_scroll - 1) as usize
                    } else {
                        0
                    }
                };
                match spec_find_group(diffs, from, reversed) {
                    Some(g) => AppStateModel {
                        selected_job: Some(
                            SelectedJobModel { vertical_scroll: g as usize, ..sj },
                        ),
                        ..s
                    },
                    None => s,
                }
            }
        },
        None => s,
    }
}

impl AppState {
    /// Moves the opened view to the next run of changed lines.
    pub fn go_to_next_diff(&mut self)
        requires
            app_inv(old(self)@),
        ensures
            final(self)@ == spec_go_to_diff(old(self)@, false),
            app_inv(final(self)@),
    {
        self.go_to_diff(false);
    }

    /// Moves the opened view to the previous run of changed lines.
    pub fn go_to_prev_diff(&mut self)
        requires
            app_inv(old(self)@),
        ensures
            final(self)@ == spec_go_to_diff(old(self)@, true),
            app_inv(final(self)@),
    {
        self.go_to_diff(true);
    }

    fn go_to_diff(&mut self, reversed: bool)
        requires
            app_inv(old(self)@),
        ensures
            final(self)@ == spec_go_to_diff(old(self)@, reversed),
            app_inv(final(self)@),
    {
        let mut taken = self.selected_job.take();
        match &mut taken {
            Some(state) => {
                let tab = state.tab_index;
                let diffs_len = state.job.requests[tab].diffs.len();
                if diffs_len > 0 {
                    let from: usize = if !reversed {
                        if state.vertical_scroll < usize::MAX && state.vertical_scroll + 1
                            <= diffs_len {
                            state.vertical_scroll + 1
                        } else {
                            diffs_len
                        }
                    } else {
                        if state.vertical_scroll >= 1 {
                            state.vertical_scroll - 1
                        } else {
                            0
                        }
                    };
                    let found = AppState::find_next_diff_group(
                        from,
                        &state.job.requests[tab].diffs,
                        reversed,
                    );
                    if let Some(g) = found {
                        state.vertical_scroll = g;
                    }
                }
            }
            None => {
            }
        }
        self.selected_job = taken;
    }

    /// Shows the next request's tab of the opened job.
    pub fn go_to_next_request_info_tab(&mut self)
        requires
            app_inv(old(self)@),
        ensures
            final(self)@ == spec_next_tab(old(self)@),
            app_inv(final(self)@),
    {
        let mut taken = self.selected_job.take();
        match &mut taken {
            Some(state) => {
                let tabs_count = state.job.requests.len();
                state.tab_index = (state.tab_index + 1) % tabs_count;
                state.vertical_scroll = 0;
            }
            None => {
            }
        }
        self.selected_job = taken;
        proof {
            assert((old(self)@.selected_job->Some_0.tab_index as int + 1) % (old(
                self,
            )@.selected_job->Some_0.job.requests.len() as int) < old(
                self,
            )@.selected_job->Some_0.job.requests.len() as int || !(old(self)@.selected_job is Some));
        }
    }

    /// Scrolls the opened view up by one step.
    pub fn scroll_up(&mut self)
        ensures
            final(self)@ == spec_scroll_view(old(self)@, true),
    {
        let mut taken = self.selected_job.take();
        match &mut taken {
            Some(state) => {
                state.scroll_up();
            }
            None => {
            }
        }
        self.selected_job = taken;
    }

    /// Scrolls the opened view down by one step.
    pub fn scroll_down(&mut self)
        ensures
            final(self)@ == spec_scroll_view(old(self)@, false),
    {
        let mut taken = self.selected_job.take();
        match &mut taken {
            Some(state) => {
                state.scroll_down();
            }
            None => {
            }
        }
        self.selected_job = taken;
    }
}

/// The opened view after one tab switch.
pub open spec fn spec_next_tab(s: AppStateModel) -> AppStateModel {
    match s.selected_job {
        Some(sj) => AppStateModel {
            selected_job: Some(
                SelectedJobModel {
                    tab_index: ((sj.tab_index as int + 1) % (
                    sj.job.requests.len() as int)) as usize,
                    vertical_scroll: 0,
                    ..sj
                },
            ),
            ..s
        },
        None => s,
    }
}

/// The opened view scrolled one step up or down.
pub open spec fn spec_scroll_view(s: AppStateModel, up: bool) -> AppStateModel {
    match s.selected_job {
        Some(sj) => AppStateModel {
            selected_job: Some(
                SelectedJobModel {
                    vertical_scroll: (if up {
                        spec_scrolled_up(sj)
                    } else {
                        spec_scrolled_down(sj)
                    }),
                    ..sj
                },
            ),
            ..s
        },
        None => s,
    }
}

} // verus!
