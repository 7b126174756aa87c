use vstd::prelude::*;
use crate::types::{AppError, JobStatus};
use crate::request::{Request, RequestModel, RespVariantModel, ResponseVariant, Response,
    se_response_variant};
use crate::diff::{DiffTag, diffs_model, has_changes, line_diff_of};
use crate::json::spec_render;
use crate::config::strs_model;

verus! {

/// One comparison unit: one concrete endpoint instance, one request per
/// domain, the first request being the diff baseline.
#[derive(Debug, PartialEq)]
pub struct Job {
    pub requests: Vec<Request>,
    pub status: JobStatus,
    pub job_duration: Option<u64>,
    pub job_name: String,
    pub response_processor: Option<Vec<String>>,
    pub request_builder: Option<Vec<String>>,
}

/// A value-typed snapshot of a job, as shown to the state model.
#[derive(Debug, PartialEq)]
pub struct JobDTO {
    pub requests: Vec<Request>,
    pub status: JobStatus,
    pub job_duration: Option<u64>,
    pub job_name: String,
}

pub ghost struct JobModel {
    pub requests: Seq<RequestModel>,
    pub status: JobStatus,
    pub job_duration: Option<u64>,
    pub job_name: Seq<char>,
    pub response_processor: Option<Seq<Seq<char>>>,
    pub request_builder: Option<Seq<Seq<char>>>,
}

pub ghost struct JobDtoModel {
    pub requests: Seq<RequestModel>,
    pub status: JobStatus,
    pub job_duration: Option<u64>,
    pub job_name: Seq<char>,
}

/// The models of a list of requests.
pub open spec fn requests_model(s: Seq<Request>) -> Seq<RequestModel> {
    Seq::new(s.len(), |i: int| s[i]@)
}

impl View for Job {
    type V = JobModel;

    open spec fn view(&self) -> JobModel {
        JobModel {
            requests: requests_model(self.requests@),
            status: self.status,
            job_duration: self.job_duration,
            job_name: self.job_name@,
            response_processor: match self.response_processor {
                Some(p) => Some(strs_model(p@)),
                None => None,
            },
            request_builder: match self.request_builder {
                Some(p) => Some(strs_model(p@)),
                None => None,
            },
        }
    }
}

impl View for JobDTO {
    type V = JobDtoModel;

    open spec fn view(&self) -> JobDtoModel {
        JobDtoModel {
            requests: requests_model(self.requests@),
            status: self.status,
            job_duration: self.job_duration,
            job_name: self.job_name@,
        }
    }
}

/// Copies a list of command words.
pub fn clone_string_vec(v: &Vec<String>) -> (r: Vec<String>)
    ensures
        r@.len() == v@.len(),
        forall|i: int| 0 <= i < v@.len() ==> (#[trigger] r@[i]) == v@[i],
{
    let mut out: Vec<String> = Vec::new();
    let n = v.len();
    let mut i: usize = 0;
    while i < n
        invariant
            n == v@.len(),
            0 <= i <= n,
            out@.len() == i,
            forall|j: int| 0 <= j < i ==> (#[trigger] out@[j]) == v@[j],
        decreases n - i,
    {
        out.push(v[i].clone());
        i = i + 1;
    }
    out
}

impl Clone for Response {
    /// A clone holds the same exchange.
    fn clone(&self) -> (res: Self)
        ensures
            res@ == self@,
    {
        Response {
            status_code: self.status_code,
            content_length: self.content_length,
            headers: self.headers.duplicate(),
            body: match &self.body {
                Some(b) => Some(b.clone()),
                None => None,
            },
        }
    }
}

impl Clone for ResponseVariant {
    /// A clone holds the same outcome.
    fn clone(&self) -> (res: Self)
        ensures
            res@ == self@,
    {
        match self {
            ResponseVariant::Success(r) => ResponseVariant::Success(r.clone()),
            ResponseVariant::Fail(s) => ResponseVariant::Fail(s.clone()),
        }
    }
}

impl Clone for Request {
    /// A clone holds the same request state.
    fn clone(&self) -> (res: Self)
        ensures
            res@ == self@,
    {
        let mut diffs: Vec<(DiffTag, String)> = Vec::new();
        let n = self.diffs.len();
        let mut i: usize = 0;
        while i < n
            invariant
                n == self.diffs@.len(),
                0 <= i <= n,
                diffs@.len() == i,
                forall|j: int|
                    0 <= j < i ==> (#[trigger] diffs@[j]).0 == self.diffs@[j].0 && diffs@[j].1@
                        == self.diffs@[j].1@,
            decreases n - i,
        {
            let pair = &self.diffs[i];
            diffs.push((pair.0, pair.1.clone()));
            i = i + 1;
        }
        let res = Request {
            uri: self.uri.clone(),
            status: self.status,
            http_method: self.http_method,
            headers: match &self.headers {
                Some(h) => Some(h.duplicate()),
                None => None,
            },
            body: match &self.body {
                Some(b) => Some(b.clone()),
                None => None,
            },
            job_duration: self.job_duration,
            response: match &self.response {
                Some(r) => Some(r.clone()),
                None => None,
            },
            diffs,
            has_diffs: self.has_diffs,
        };
        proof {
            assert(res@.diffs =~= self@.diffs);
        }
        res
    }
}

impl Clone for JobDTO {
    /// A clone holds the same snapshot.
    fn clone(&self) -> (res: Self)
        ensures
            res@ == self@,
    {
        JobDTO {
            requests: clone_requests(&self.requests),
            status: self.status,
            job_duration: self.job_duration,
            job_name: self.job_name.clone(),
        }
    }
}

/// Copies a list of requests.
pub fn clone_requests(v: &Vec<Request>) -> (r: Vec<Request>)
    ensures
        requests_model(r@) == requests_model(v@),
{
    let mut out: Vec<Request> = Vec::new();
    let n = v.len();
    let mut i: usize = 0;
    while i < n
        invariant
            n == v@.len(),
            0 <= i <= n,
            out@.len() == i,
            forall|j: int| 0 <= j < i ==> (#[trigger] out@[j])@ == v@[j]@,
        decreases n - i,
    {
        out.push(v[i].clone());
        i = i + 1;
    }
    proof {
        assert(requests_model(out@) =~= requests_model(v@));
    }
    out
}

impl Job {
    /// A pending job over the given requests.
    pub fn new(
        requests: Vec<Request>,
        job_name: &str,
        response_processor: &Option<Vec<String>>,
        request_builder: &Option<Vec<String>>,
    ) -> (r: Job)
        ensures
            r@.requests == requests_model(requests@),
            r@.status == JobStatus::Pending,
            r@.job_duration is None,
            r@.job_name == job_name@,
            r@.response_processor == match response_processor {
                Some(p) => Some(strs_model(p@)),
                None => None::<Seq<Seq<char>>>,
            },
            r@.request_builder == match request_builder {
                Some(p) => Some(strs_model(p@)),
                None => None::<Seq<Seq<char>>>,
            },
    {
        let r = Job {
            requests,
            status: JobStatus::Pending,
            job_duration: None,
            job_name: String::from_str(job_name),
            response_processor: match response_processor {
                Some(p) => Some(clone_string_vec(p)),
                None => None,
            },
            request_builder: match request_builder {
                Some(p) => Some(clone_string_vec(p)),
                None => None,
            },
        };
        proof {
            match response_processor {
                Some(p) => {
                    assert(r@.response_processor->Some_0 =~= strs_model(p@));
                }
                None => {
                }
            }
            match request_builder {
                Some(p) => {
                    assert(r@.request_builder->Some_0 =~= strs_model(p@));
                }
                None => {
                }
            }
        }
        r
    }

    /// A value snapshot of this job.
    pub fn to_dto(&self) -> (r: JobDTO)
        ensures
            r@.requests == self@.requests,
            r@.status == self@.status,
            r@.job_duration == self@.job_duration,
            r@.job_name == self@.job_name,
    {
        JobDTO {
            requests: clone_requests(&self.requests),
            status: self.status,
            job_duration: self.job_duration,
            job_name: self.job_name.clone(),
        }
    }

    /// Whether the job ended in failure.
    pub fn is_failed(&self) -> (r: bool)
        ensures
            r == (self@.status == JobStatus::Failed),
    {
        matches!(self.status, JobStatus::Failed)
    }

    /// Puts the job and all its requests back to pending.
    #[verifier::loop_isolation(false)]
    pub fn reset(&mut self)
        ensures
            final(self)@.status == JobStatus::Pending,
            final(self)@.job_duration is None,
            final(self)@.requests.len() == old(self)@.requests.len(),
            forall|i: int|
                0 <= i < old(self)@.requests.len() ==> (#[trigger] final(self)@.requests[i])
                    == (RequestModel {
                    status: JobStatus::Pending,
                    job_duration: None,
                    response: None,
                    diffs: Seq::empty(),
                    has_diffs: false,
                    ..old(self)@.requests[i]
                }),
            final(self)@.job_name == old(self)@.job_name,
            final(self)@.response_processor == old(self)@.response_processor,
            final(self)@.request_builder == old(self)@.request_builder,
    {
        self.status = JobStatus::Pending;
        self.job_duration = None;
        let n = self.requests.len();
        let mut i: usize = 0;
        while i < n
            invariant
                n == self.requests@.len(),
                0 <= i <= n,
                self.status == JobStatus::Pending,
                self.job_duration is None,
                self.job_name == old(self).job_name,
                self.response_processor == old(self).response_processor,
                self.request_builder == old(self).request_builder,
                forall|j: int|
                    0 <= j < i ==> (#[trigger] self.requests@[j])@ == (RequestModel {
                        status: JobStatus::Pending,
                        job_duration: None,
                        response: None,
                        diffs: Seq::empty(),
                        has_diffs: false,
                        ..old(self).requests@[j]@
                    }),
                forall|j: int|
                    i <= j < n ==> (#[trigger] self.requests@[j]) == old(self).requests@[j],
            decreases n - i,
        {
            let ghost prev = self.requests@;
            let mut r = self.requests.remove(i);
            r.reset();
            let ghost rv = r;
            self.requests.insert(i, r);
            proof {
                assert(self.requests@ =~= prev.update(i as int, rv));
            }
            i = i + 1;
        }
        proof {
            assert forall|j: int| 0 <= j < n implies (#[trigger] final(self)@.requests[j])
                == (RequestModel {
                status: JobStatus::Pending,
                job_duration: None,
                response: None,
                diffs: Seq::empty(),
                has_diffs: false,
                ..old(self)@.requests[j]
            }) by {
                assert(final(self)@.requests[j] == self.requests@[j]@);
                assert(old(self)@.requests[j] == old(self).requests@[j]@);
            }
        }
    }
}

impl JobDTO {
    /// Whether the job ended in failure.
    pub fn is_failed(&self) -> (r: bool)
        ensures
            r == (self@.status == JobStatus::Failed),
    {
        matches!(self.status, JobStatus::Failed)
    }

    /// The requests that hold a diff and ended in failure.
    pub fn get_requests_with_diffs(&self) -> (r: Vec<Request>)
        ensures
            requests_model(r@) == self@.requests.filter(
                |rm: RequestModel| rm.diffs.len() > 0 && rm.status == JobStatus::Failed,
            ),
    {
        let ghost f = |rm: RequestModel| rm.diffs.len() > 0 && rm.status == JobStatus::Failed;
        let mut out: Vec<Request> = Vec::new();
        let n = self.requests.len();
        let mut i: usize = 0;
        proof {
            reveal(Seq::filter);
            assert(self@.requests.take(0) =~= Seq::<RequestModel>::empty());
            assert(requests_model(out@) =~= self@.requests.take(0).filter(f));
        }
        while i < n
            invariant
                n == self.requests@.len(),
                0 <= i <= n,
                f == (|rm: RequestModel| rm.diffs.len() > 0 && rm.status == JobStatus::Failed),
                requests_model(out@) == self@.requests.take(i as int).filter(f),
            decreases n - i,
        {
            let request = &self.requests[i];
            let keep = request.diffs.len() > 0 && matches!(request.status, JobStatus::Failed);
            proof {
                reveal(Seq::filter);
                let prefix = self@.requests.take(i as int);
                let next = self@.requests.take(i + 1);
                assert(next =~= prefix.push(request@));
                assert(next.drop_last() =~= prefix);
                assert(next.last() == request@);
            }
            if keep {
                out.push(request.clone());
                proof {
                    assert(requests_model(out@) =~= self@.requests.take(i + 1).filter(f));
                }
            } else {
                proof {
                    assert(requests_model(out@) =~= self@.requests.take(i + 1).filter(f));
                }
            }
            i = i + 1;
        }
        proof {
            assert(self@.requests.take(i as int) =~= self@.requests);
        }
        out
    }
}


/// The largest measured request duration, if any was measured.
pub open spec fn spec_max_duration(requests: Seq<RequestModel>) -> Option<u64>
    decreases requests.len(),
{
    if requests.len() == 0 {
        None
    } else {
        let rest = spec_max_duration(requests.drop_last());
        match (rest, requests.last().job_duration) {
            (None, d) => d,
            (Some(m), None) => Some(m),
            (Some(m), Some(d)) => if d > m {
                Some(d)
            } else {
                Some(m)
            },
        }
    }
}

/// A job's duration: the longest of its requests' wall times.
pub fn max_duration(requests: &Vec<Request>) -> (r: Option<u64>)
    ensures
        r == spec_max_duration(requests_model(requests@)),
{
    let mut best: Option<u64> = None;
    let n = requests.len();
    let mut i: usize = 0;
    proof {
        assert(requests_model(requests@).take(0) =~= Seq::<RequestModel>::empty());
    }
    while i < n
        invariant
            n == requests@.len(),
            0 <= i <= n,
            best == spec_max_duration(requests_model(requests@).take(i as int)),
        decreases n - i,
    {
        proof {
            let rm = requests_model(requests@);
            assert(rm.take(i + 1).drop_last() =~= rm.take(i as int));
            assert(rm.take(i + 1).last() == requests@[i as int]@);
        }
        match requests[i].job_duration {
            Some(d) => {
                best = match best {
                    None => Some(d),
                    Some(m) => if d > m {
                        Some(d)
                    } else {
                        Some(m)
                    },
                };
            }
            None => {
            }
        }
        i = i + 1;
    }
    proof {
        assert(requests_model(requests@).take(i as int) =~= requests_model(requests@));
    }
    best
}

// ------------------------- the external process's verdict -------------------------

/// What the external process pipe returns: the captured output on a clean
/// exit, and a validation error that carries the stderr text verbatim
/// otherwise.
pub fn process_outcome(exit_success: bool, stdout: String, stderr: &String) -> (r: Result<
    String,
    AppError,
>)
    ensures
        exit_success ==> (r matches Ok(s) && s@ == stdout@),
        !exit_success ==> (r matches Err(e) && e matches AppError::ValidationError(m) && m@ == (
        "External command failed:\n")@ + stderr@),
{
    if exit_success {
        Ok(stdout)
    } else {
        let mut m = String::from_str("External command failed:\n");
        m.append(stderr.as_str());
        Err(AppError::ValidationError(m))
    }
}

// ------------------------- line splitting -------------------------

/// Index of the first line break in `s`, or `s.len()`.
pub open spec fn first_nl(s: Seq<char>) -> nat
    decreases s.len(),
{
    if s.len() == 0 {
        0
    } else if s[0] == '\n' {
        0
    } else {
        (1 + first_nl(s.skip(1))) as nat
    }
}

pub proof fn lemma_first_nl(s: Seq<char>)
    ensures
        0 <= first_nl(s) <= s.len(),
        first_nl(s) < s.len() ==> s[first_nl(s) as int] == '\n',
        forall|i: int| 0 <= i < first_nl(s) ==> s[i] != '\n',
    decreases s.len(),
{
    if s.len() == 0 {
    } else if s[0] == '\n' {
    } else {
        lemma_first_nl(s.skip(1));
        assert forall|i: int| 0 <= i < first_nl(s) implies s[i] != '\n' by {
            if i > 0 {
                assert(s.skip(1)[i - 1] == s[i]);
            }
        }
    }
}

/// A line with a trailing carriage return stripped.
pub open spec fn strip_cr(line: Seq<char>) -> Seq<char> {
    if line.len() > 0 && line.last() == '\r' {
        line.drop_last()
    } else {
        line
    }
}

/// The lines of a text: split at each line break, carriage returns before a
/// break stripped, and no empty last line for a trailing break.
pub open spec fn spec_lines(s: Seq<char>) -> Seq<Seq<char>>
    decreases s.len(),
{
    if s.len() == 0 {
        Seq::empty()
    } else {
        let j = first_nl(s);
        let line = strip_cr(s.take(j as int));
        if j >= s.len() {
            seq![line]
        } else {
            seq![line] + spec_lines(s.skip(j + 1 as int))
        }
    }
}

/// Every line of `lines` tagged as unchanged.
pub open spec fn equal_diffs(lines: Seq<Seq<char>>) -> Seq<(DiffTag, Seq<char>)> {
    Seq::new(lines.len(), |i: int| (DiffTag::Equal, lines[i]))
}

/// One unchanged entry per line of `text`: the baseline's diff against
/// itself.
pub fn baseline_equal_diffs(text: &str) -> (r: Vec<(DiffTag, String)>)
    ensures
        diffs_model(r@) == equal_diffs(spec_lines(text@)),
{
    let len = text.unicode_len();
    let mut out: Vec<(DiffTag, String)> = Vec::new();
    let mut i: usize = 0;
    proof {
        assert(text@.skip(0) =~= text@);
        assert(diffs_model(out@) + equal_diffs(spec_lines(text@.skip(0))) =~= equal_diffs(
            spec_lines(text@),
        ));
    }
    while i < len
        invariant
            0 <= i <= len,
            len == text@.len(),
            diffs_model(out@) + equal_diffs(spec_lines(text@.skip(i as int))) =~= equal_diffs(
                spec_lines(text@),
            ),
        decreases len - i,
    {
        let ghost s = text@.skip(i as int);
        let mut j: usize = i;
        while j < len && text.get_char(j) != '\n'
            invariant
                i <= j <= len,
                len == text@.len(),
                forall|k: int| i <= k < j ==> text@[k] != '\n',
            decreases len - j,
        {
            j = j + 1;
        }
        proof {
            lemma_first_nl(s);
            if j < len {
                assert(text@[j as int] == '\n');
                assert(s[j - i] == text@[j as int]);
                assert forall|k: int| 0 <= k < j - i implies s[k] != '\n' by {
                    assert(s[k] == text@[k + i]);
                }
                assert(first_nl(s) == j - i);
            } else {
                assert forall|k: int| 0 <= k < s.len() implies s[k] != '\n' by {
                    assert(s[k] == text@[k + i]);
                }
                assert(first_nl(s) == s.len());
            }
        }
        // the raw line, before stripping a carriage return
        let line_end = if j > i && text.get_char(j - 1) == '\r' {
            j - 1
        } else {
            j
        };
        let line = String::from_str(text.substring_char(i, line_end));
        proof {
            assert(s.take(j - i) =~= text@.subrange(i as int, j as int));
            if j > i && text@[j - 1] == '\r' {
                assert(s.take(j - i).len() > 0);
                assert(s.take(j - i).last() == text@[j - 1]);
                assert(strip_cr(s.take(j - i)) =~= text@.subrange(i as int, line_end as int));
            } else {
                if j > i {
                    assert(s.take(j - i).last() == text@[j - 1]);
                }
                assert(strip_cr(s.take(j - i)) =~= text@.subrange(i as int, line_end as int));
            }
            assert(line@ == strip_cr(s.take(first_nl(s) as int)));
        }
        out.push((DiffTag::Equal, line));
        proof {
            if j < len {
                assert(s.skip(j - i + 1) =~= text@.skip(j + 1));
                assert(spec_lines(s) == seq![line@] + spec_lines(text@.skip(j + 1)));
                assert(diffs_model(out@) =~= diffs_model(out@.drop_last()) + seq![
                    (DiffTag::Equal, line@),
                ]);
                assert(diffs_model(out@) + equal_diffs(spec_lines(text@.skip(j + 1))) =~= (
                diffs_model(out@.drop_last()) + equal_diffs(spec_lines(s))));
            } else {
                assert(spec_lines(s) == seq![line@]);
                assert(diffs_model(out@) =~= diffs_model(out@.drop_last()) + seq![
                    (DiffTag::Equal, line@),
                ]);
                assert(text@.skip(len as int) =~= Seq::<char>::empty());
                assert(diffs_model(out@) + equal_diffs(spec_lines(text@.skip(len as int))) =~= (
                diffs_model(out@.drop_last()) + equal_diffs(spec_lines(s))));
            }
        }
        if j < len {
            i = j + 1;
        } else {
            i = len;
        }
    }
    proof {
        assert(text@.skip(i as int) =~= Seq::<char>::empty());
        assert(diffs_model(out@) + equal_diffs(spec_lines(text@.skip(i as int))) =~= diffs_model(
            out@,
        ));
    }
    out
}

// ------------------------- the diff pass -------------------------

/// What each request's processed text is compared with, and how the request
/// then stands: the baseline request reads all-unchanged; every other
/// request carries the line diff against the baseline text; a request fails
/// exactly when its diff shows a change or its transport failed; the job
/// fails exactly when some request failed.
#[verifier::loop_isolation(false)]
pub fn compute_job_diffs(job: &mut Job, texts: &Vec<String>)
    requires
        texts@.len() == old(job)@.requests.len(),
        texts@.len() >= 1,
    ensures
        final(job)@.requests.len() == old(job)@.requests.len(),
        final(job)@.requests[0].diffs == equal_diffs(spec_lines(texts@[0]@)),
        forall|e: int|
            0 <= e < final(job)@.requests[0].diffs.len() ==> (#[trigger] (final(job))@.requests[0].diffs[e]).0 == DiffTag::Equal,
        forall|i: int|
            1 <= i < texts@.len() ==> (#[trigger] final(job)@.requests[i]).diffs == line_diff_of(
                texts@[0]@,
                texts@[i]@,
            ),
        forall|i: int|
            0 <= i < texts@.len() ==> (#[trigger] final(job)@.requests[i]).has_diffs
                == has_changes(final(job)@.requests[i].diffs),
        !final(job)@.requests[0].has_diffs,
        forall|i: int|
            1 <= i < texts@.len() ==> ((#[trigger] final(job)@.requests[i]).has_diffs <==> texts@[0]@
                != texts@[i]@),
        forall|i: int|
            0 <= i < texts@.len() ==> (#[trigger] final(job)@.requests[i]).status == (if (final(job))@.requests[i].has_diffs || (old(job)@.requests[i].response matches Some(
                RespVariantModel::Fail(_),
            )) {
                JobStatus::Failed
            } else {
                JobStatus::Finished
            }),
        forall|i: int|
            0 <= i < texts@.len() ==> (#[trigger] final(job)@.requests[i]) == (RequestModel {
                diffs: final(job)@.requests[i].diffs,
                has_diffs: final(job)@.requests[i].has_diffs,
                status: final(job)@.requests[i].status,
                ..old(job)@.requests[i]
            }),
        final(job)@.status == (if (exists|i: int|
            0 <= i < texts@.len() && ((#[trigger] final(job)@.requests[i]).has_diffs || ((old(job))@.requests[i].response matches Some(RespVariantModel::Fail(_))))) {
            JobStatus::Failed
        } else {
            JobStatus::Finished
        }),
        final(job)@ == (JobModel {
            requests: final(job)@.requests,
            status: final(job)@.status,
            ..old(job)@
        }),
{
    let n = job.requests.len();
    let mut some_failed = false;
    let mut i: usize = 0;
    while i < n
        invariant
            n == job.requests@.len(),
            n == texts@.len(),
            n >= 1,
            job.status == old(job).status,
            job.job_duration == old(job).job_duration,
            job.job_name == old(job).job_name,
            job.response_processor == old(job).response_processor,
            job.request_builder == old(job).request_builder,
            0 <= i <= n,
            forall|j: int|
                i <= j < n ==> (#[trigger] job.requests@[j]) == old(job).requests@[j],
            i > 0 ==> job.requests@[0]@.diffs == equal_diffs(spec_lines(texts@[0]@)),
            forall|j: int|
                1 <= j < i ==> (#[trigger] job.requests@[j])@.diffs == line_diff_of(
                    texts@[0]@,
                    texts@[j]@,
                ),
            forall|j: int|
                0 <= j < i ==> (#[trigger] job.requests@[j])@.has_diffs == has_changes(
                    job.requests@[j]@.diffs,
                ),
            i > 0 ==> !job.requests@[0]@.has_diffs,
            forall|j: int|
                1 <= j < i ==> ((#[trigger] job.requests@[j])@.has_diffs <==> texts@[0]@
                    != texts@[j]@),
            forall|j: int|
                0 <= j < i ==> (#[trigger] job.requests@[j])@.status == (if job.requests@[j]@.has_diffs
                    || (old(job).requests@[j]@.response matches Some(RespVariantModel::Fail(_))) {
                    JobStatus::Failed
                } else {
                    JobStatus::Finished
                }),
            forall|j: int|
                0 <= j < i ==> (#[trigger] job.requests@[j])@ == (RequestModel {
                    diffs: job.requests@[j]@.diffs,
                    has_diffs: job.requests@[j]@.has_diffs,
                    status: job.requests@[j]@.status,
                    ..old(job).requests@[j]@
                }),
            some_failed == (exists|j: int|
                0 <= j < i && ((#[trigger] job.requests@[j])@.has_diffs || (old(job).requests@[j]@.response matches Some(RespVariantModel::Fail(_))))),
        decreases n - i,
    {
        let ghost mut texts_differ: bool = false;
        let diffs: Vec<(DiffTag, String)> = if i == 0 {
            baseline_equal_diffs(texts[0].as_str())
        } else {
            let peer_diffs = crate::diff::diff_lines(texts[0].as_str(), texts[i].as_str());
            proof {
                texts_differ = (texts@[0]@ != texts@[i as int]@);
                assert(has_changes(diffs_model(peer_diffs@)) <==> texts_differ);
            }
            peer_diffs
        };
        let ghost prev = job.requests@;
        let mut r = job.requests.remove(i);
        r.set_diffs_and_calculate_status(diffs);
        let failed = matches!(r.status, JobStatus::Failed);
        let ghost rv = r;
        job.requests.insert(i, r);
        proof {
            assert(job.requests@ =~= prev.update(i as int, rv));
            if i > 0 {
                assert(rv@.has_diffs <==> texts_differ);
            }
            if i == 0 {
                assert forall|e: int| 0 <= e < rv@.diffs.len() implies (#[trigger] rv@.diffs[e]).0
                    == DiffTag::Equal by {
                    assert(rv@.diffs[e] == (DiffTag::Equal, spec_lines(texts@[0]@)[e]));
                }
                assert(!has_changes(rv@.diffs));
            }
        }
        proof {
            assert(forall|j: int| 0 <= j < i ==> #[trigger] job.requests@[j] == prev[j]);
            assert(job.requests@[i as int] == rv);
            assert(failed == (rv@.has_diffs || (old(job).requests@[i as int]@.response matches Some(
                RespVariantModel::Fail(_),
            ))));
        }
        let ghost prev_some = some_failed;
        if failed {
            some_failed = true;
        }
        proof {
            let cond = |j: int|
                (job.requests@[j]@.has_diffs || (old(job).requests@[j]@.response matches Some(
                    RespVariantModel::Fail(_),
                )));
            if some_failed {
                if failed {
                    assert(cond(i as int));
                    assert(exists|j: int| 0 <= j < i + 1 && #[trigger] cond(j));
                } else {
                    let j = choose|j: int|
                        0 <= j < i && ((#[trigger] prev[j])@.has_diffs || (old(
                            job,
                        ).requests@[j]@.response matches Some(RespVariantModel::Fail(_))));
                    assert(job.requests@[j] == prev[j]);
                    assert(cond(j));
                    assert(exists|j: int| 0 <= j < i + 1 && #[trigger] cond(j));
                }
            } else {
                assert forall|j: int| 0 <= j < i + 1 implies !(#[trigger] cond(j)) by {
                    if j < i {
                        assert(!(job.requests@[j]@.has_diffs || (old(
                            job,
                        ).requests@[j]@.response matches Some(RespVariantModel::Fail(_)))));
                    } else {
                        assert(!cond(i as int));
                    }
                }
            }
            assert(some_failed == (exists|j: int|
                0 <= j < i + 1 && ((#[trigger] job.requests@[j])@.has_diffs || (old(
                    job,
                ).requests@[j]@.response matches Some(RespVariantModel::Fail(_)))))) by {
                if some_failed {
                    let j = choose|j: int| 0 <= j < i + 1 && #[trigger] cond(j);
                    assert(0 <= j < i + 1 && (job.requests@[j]@.has_diffs || (old(
                        job,
                    ).requests@[j]@.response matches Some(RespVariantModel::Fail(_)))));
                } else {
                }
            }
        }
        i = i + 1;
    }
    if some_failed {
        job.status = JobStatus::Failed;
    } else {
        job.status = JobStatus::Finished;
    }
    proof {
        assert forall|j: int| 0 <= j < n implies (#[trigger] job@.requests[j])
            == job.requests@[j]@ && old(job)@.requests[j] == old(job).requests@[j]@ by {
        }
        assert(job@.requests =~= requests_model(job.requests@));
        let model_failed = (exists|i: int|
            0 <= i < texts@.len() && ((#[trigger] job@.requests[i]).has_diffs || (old(
                job,
            )@.requests[i].response matches Some(RespVariantModel::Fail(_)))));
        let raw_failed = (exists|j: int|
            0 <= j < n && ((#[trigger] job.requests@[j])@.has_diffs || (old(
                job,
            ).requests@[j]@.response matches Some(RespVariantModel::Fail(_)))));
        if model_failed {
            let i = choose|i: int|
                0 <= i < texts@.len() && ((#[trigger] job@.requests[i]).has_diffs || (old(
                    job,
                )@.requests[i].response matches Some(RespVariantModel::Fail(_))));
            assert((job.requests@[i])@.has_diffs || (old(job).requests@[i]@.response matches Some(
                RespVariantModel::Fail(_),
            )));
            assert(raw_failed);
        }
        if raw_failed {
            let j = choose|j: int|
                0 <= j < n && ((#[trigger] job.requests@[j])@.has_diffs || (old(
                    job,
                ).requests@[j]@.response matches Some(RespVariantModel::Fail(_))));
            assert(job@.requests[j].has_diffs || (old(job)@.requests[j].response matches Some(
                RespVariantModel::Fail(_),
            )));
            assert(model_failed);
        }
        assert(model_failed == raw_failed);
        let tm = crate::config::strs_model(texts@);
        let fm = Seq::new(
            texts@.len(),
            |i: int| old(job)@.requests[i].response matches Some(RespVariantModel::Fail(_)),
        );
        if model_failed {
            let i = choose|i: int|
                0 <= i < texts@.len() && ((#[trigger] job@.requests[i]).has_diffs || (old(
                    job,
                )@.requests[i].response matches Some(RespVariantModel::Fail(_))));
            assert(fm[i] || tm[i] != tm[0]);
            assert(crate::diff::spec_job_failed(tm, fm, 0));
        }
        if !model_failed {
            assert forall|i: int| #![trigger tm[i]] #![trigger fm[i]]
                0 <= i < tm.len() implies !((0 <= i < fm.len() && fm[i]) || tm[i] != tm[0]) by {
                assert(!(job@.requests[i].has_diffs || (old(job)@.requests[i].response matches Some(
                    RespVariantModel::Fail(_),
                ))));
                assert(fm[i] == (old(job)@.requests[i].response matches Some(
                    RespVariantModel::Fail(_),
                )));
                assert(tm[i] == texts@[i]@);
                assert(tm[0] == texts@[0]@);
                if i != 0 {
                    assert(job@.requests[i].has_diffs <==> texts@[0]@ != texts@[i]@);
                }
            }
            assert(!crate::diff::spec_job_failed(tm, fm, 0));
        }
    }
}

/// Puts a request back at its place.
fn self_insert(job: &mut Job, i: usize, r: Request)
    requires
        i <= old(job).requests@.len(),
    ensures
        final(job).requests@ == old(job).requests@.insert(i as int, r),
        final(job)@.requests == old(job)@.requests.insert(i as int, r@),
        final(job).status == old(job).status,
        final(job).job_duration == old(job).job_duration,
        final(job).job_name == old(job).job_name,
        final(job)@.response_processor == old(job)@.response_processor,
        final(job)@.request_builder == old(job)@.request_builder,
{
    job.requests.insert(i, r);
    proof {
        assert(final(job)@.requests =~= old(job)@.requests.insert(i as int, r@));
    }
}

// ------------------------- feeding the processor -------------------------

/// One unit of outside work for a job: run the processor over a payload, or
/// a text that is already final.
#[derive(Debug, PartialEq)]
pub enum PipeTask {
    Run { command: Vec<String>, payload: String },
    Ready { text: String },
}

pub ghost enum PipeTaskModel {
    Run { command: Seq<Seq<char>>, payload: Seq<char> },
    Ready { text: Seq<char> },
}

impl View for PipeTask {
    type V = PipeTaskModel;

    open spec fn view(&self) -> PipeTaskModel {
        match self {
            PipeTask::Run { command, payload } => PipeTaskModel::Run {
                command: strs_model(command@),
                payload: payload@,
            },
            PipeTask::Ready { text } => PipeTaskModel::Ready { text: text@ },
        }
    }
}

/// What one request's text comes from: a successful exchange runs through
/// the processor when one is set; a transport failure or the absence of a
/// processor leaves the serialized response as the final text.
pub open spec fn spec_pipe_task(
    response: RespVariantModel,
    processor: Option<Seq<Seq<char>>>,
) -> PipeTaskModel {
    let text = spec_render(se_response_variant(response), 0);
    match (processor, response) {
        (Some(cmd), RespVariantModel::Success(_)) => PipeTaskModel::Run {
            command: cmd,
            payload: text,
        },
        _ => PipeTaskModel::Ready { text },
    }
}

/// The models of a list of tasks.
pub open spec fn tasks_model(s: Seq<PipeTask>) -> Seq<PipeTaskModel> {
    Seq::new(s.len(), |i: int| s[i]@)
}

/// One task per request: what must run or stands ready before the diff
/// pass. A job with fewer than two requests, or a request without a
/// response, is a validation error.
pub fn response_payloads(job: &Job) -> (r: Result<Vec<PipeTask>, AppError>)
    ensures
        match r {
            Ok(ts) => tasks_model(ts@).len() == job@.requests.len() && job@.requests.len() >= 2
                && forall|i: int|
                0 <= i < job@.requests.len() ==> (#[trigger] tasks_model(ts@)[i]) == spec_pipe_task(
                    job@.requests[i].response->Some_0,
                    job@.response_processor,
                ) && job@.requests[i].response is Some,
            Err(e) => (job@.requests.len() < 2 || exists|i: int|
                0 <= i < job@.requests.len() && (#[trigger] job@.requests[i]).response is None)
                && e is ValidationError,
        },
{
    if job.requests.len() == 0 {
        return Err(AppError::ValidationError(String::from_str("missing first job")));
    }
    if job.requests.len() < 2 {
        return Err(
            AppError::ValidationError(String::from_str("a comparison needs at least two requests")),
        );
    }
    let mut tasks: Vec<PipeTask> = Vec::new();
    let n = job.requests.len();
    let mut i: usize = 0;
    while i < n
        invariant
            n == job.requests@.len(),
            0 <= i <= n,
            tasks@.len() == i,
            forall|j: int|
                0 <= j < i ==> job@.requests[j].response is Some && (#[trigger] tasks_model(
                    tasks@,
                )[j]) == spec_pipe_task(job@.requests[j].response->Some_0, job@.response_processor),
        decreases n - i,
    {
        let request = &job.requests[i];
        match &request.response {
            None => {
                if i == 0 {
                    return Err(
                        AppError::ValidationError(String::from_str("missing first job response")),
                    );
                } else {
                    let mut m = String::from_str("missing response for job: ");
                    m.append(request.uri.as_str());
                    return Err(AppError::ValidationError(m));
                }
            }
            Some(response) => {
                let text = crate::request::serialize_response(response);
                let task = match (&job.response_processor, response) {
                    (Some(cmd), ResponseVariant::Success(_)) => {
                        let command = clone_string_vec(cmd);
                        proof {
                            assert(strs_model(command@) =~= strs_model(cmd@));
                        }
                        PipeTask::Run { command, payload: text }
                    }
                    _ => PipeTask::Ready { text },
                };
                proof {
                    assert(job@.requests[i as int].response == Some(response@));
                    assert(task@ == spec_pipe_task(response@, job@.response_processor));
                }
                let ghost prevt = tasks@;
                let ghost taskv = task;
                tasks.push(task);
                proof {
                    assert(tasks@ =~= prevt.push(taskv));
                    assert forall|j: int| 0 <= j < i + 1 implies #[trigger] tasks_model(tasks@)[j]
                        == (if j == i as int {
                        taskv@
                    } else {
                        tasks_model(prevt)[j]
                    }) by {
                        assert(tasks@[j] == if j == i as int {
                            taskv
                        } else {
                            prevt[j]
                        });
                    }
                }
            }
        }
        i = i + 1;
    }
    Ok(tasks)
}

} // verus!
