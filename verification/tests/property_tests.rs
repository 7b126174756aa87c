use http_diff::config::{Configuration, DomainVariant, EndpointConfiguration};
use http_diff::control::{batch_event_decision, BatchControl};
use http_diff::diff::DiffTag;
use http_diff::job::{compute_job_diffs, process_outcome, response_payloads, PipeTask};
use http_diff::json::JsonValue;
use http_diff::mapper::{build_endpoint_headers, map_configuration_to_jobs};
use http_diff::request::{serialize_response, Response, ResponseVariant};
use http_diff::sched::Scheduler;
use http_diff::actions::AppAction;
use http_diff::types::{
    AppError, HeaderValue, HttpMethod, JobStatus, PathVariable, PathVariableValue, StringMap,
};

fn two_domain_config(endpoint: EndpointConfiguration) -> Configuration {
    Configuration {
        domains: vec![
            DomainVariant::Url("http://a/".to_owned()),
            DomainVariant::Url("http://b/".to_owned()),
        ],
        endpoints: vec![endpoint],
        variables: None,
        concurrent_jobs: 20,
    }
}

fn plain_endpoint(path: &str) -> EndpointConfiguration {
    EndpointConfiguration {
        endpoint: path.to_owned(),
        variables: None,
        http_method: None,
        headers: None,
        body: None,
        response_processor: None,
        request_builder: None,
    }
}

fn ok_response(body: JsonValue) -> ResponseVariant {
    ResponseVariant::Success(Response {
        status_code: 200,
        content_length: Some(14),
        headers: StringMap { entries: Vec::new() },
        body: Some(body),
    })
}

fn ok_body() -> JsonValue {
    JsonValue::Obj(vec![("ok".to_owned(), JsonValue::Bool(true))])
}

/// One endpoint without variables yields exactly one finished job whose
/// baseline diff is all unchanged lines.
#[test]
fn health_job_over_equal_responses_finishes() {
    let config = two_domain_config(plain_endpoint("/health"));
    let mut jobs = map_configuration_to_jobs(&config).unwrap();
    assert_eq!(jobs.len(), 1);
    let job = &mut jobs[0];
    assert_eq!(job.job_name, "/health");
    assert_eq!(job.requests.len(), 2);
    job.requests[0].response = Some(ok_response(ok_body()));
    job.requests[1].response = Some(ok_response(ok_body()));

    let tasks = response_payloads(job).unwrap();
    assert_eq!(tasks.len(), 2);
    let texts: Vec<String> = tasks
        .into_iter()
        .map(|t| match t {
            PipeTask::Ready { text } => text,
            PipeTask::Run { .. } => panic!("no processor was set"),
        })
        .collect();

    // the body alone pretty-prints to three lines
    let body_text = http_diff::json::json_to_pretty_string(&ok_body());
    assert_eq!(body_text, "{\n  \"ok\": true\n}");
    assert_eq!(body_text.lines().count(), 3);

    compute_job_diffs(job, &texts);
    assert_eq!(job.status, JobStatus::Finished);
    assert_eq!(job.requests[0].status, JobStatus::Finished);
    assert_eq!(job.requests[1].status, JobStatus::Finished);
    assert!(job.requests[0].diffs.len() > 0);
    assert!(job.requests[0]
        .diffs
        .iter()
        .all(|(tag, _)| *tag == DiffTag::Equal));
    assert_eq!(
        job.requests[0].diffs.len(),
        serialize_response(job.requests[0].response.as_ref().unwrap())
            .lines()
            .count()
    );
    assert!(!job.requests[0].has_diffs);
    assert!(!job.requests[1].has_diffs);
}

/// A list variable expands to one job per value, in declaration order.
#[test]
fn list_variable_yields_jobs_in_order() {
    let mut endpoint = plain_endpoint("/users/<id>");
    let mut vars = StringMap { entries: Vec::new() };
    vars.insert(
        "id".to_owned(),
        PathVariable::MultipleValues(vec![
            PathVariableValue::Int(1),
            PathVariableValue::Int(2),
        ]),
    );
    endpoint.variables = Some(vars);
    let config = two_domain_config(endpoint);
    let jobs = map_configuration_to_jobs(&config).unwrap();
    assert_eq!(jobs.len(), 2);
    assert_eq!(jobs[0].job_name, "/users/1");
    assert_eq!(jobs[1].job_name, "/users/2");
}

/// A generator variable yields one job per run, with fresh names between
/// runs.
#[test]
fn generator_variable_yields_one_fresh_job() {
    let mut endpoint = plain_endpoint("/items/<x>");
    let mut vars = StringMap { entries: Vec::new() };
    vars.insert(
        "x".to_owned(),
        PathVariable::SingleValue(PathVariableValue::Generator(
            http_diff::types::VariableGenerator::UUID,
        )),
    );
    endpoint.variables = Some(vars);
    let config = two_domain_config(endpoint);
    let first = map_configuration_to_jobs(&config).unwrap();
    let second = map_configuration_to_jobs(&config).unwrap();
    assert_eq!(first.len(), 1);
    assert_eq!(second.len(), 1);
    assert_ne!(first[0].job_name, second[0].job_name);
}

/// Responses whose processed texts agree are classified finished even when
/// the raw responses differ.
#[test]
fn equal_processed_texts_classify_finished() {
    let config = two_domain_config(plain_endpoint("/dated"));
    let mut jobs = map_configuration_to_jobs(&config).unwrap();
    let job = &mut jobs[0];
    let mut h1 = StringMap { entries: Vec::new() };
    h1.insert("date".to_owned(), HeaderValue::String("Mon".to_owned()));
    let mut h2 = StringMap { entries: Vec::new() };
    h2.insert("date".to_owned(), HeaderValue::String("Tue".to_owned()));
    job.requests[0].response = Some(ResponseVariant::Success(Response {
        status_code: 200,
        content_length: None,
        headers: h1,
        body: None,
    }));
    job.requests[1].response = Some(ResponseVariant::Success(Response {
        status_code: 200,
        content_length: None,
        headers: h2,
        body: None,
    }));
    // what a processor that strips the date header would leave behind
    let stripped = "{\n  \"status_code\": 200\n}".to_owned();
    let texts = vec![stripped.clone(), stripped];
    compute_job_diffs(job, &texts);
    assert_eq!(job.status, JobStatus::Finished);
}

/// Differing texts fail the peer request and the job; the baseline still
/// reads all unchanged.
#[test]
fn differing_texts_fail_the_job() {
    let config = two_domain_config(plain_endpoint("/health"));
    let mut jobs = map_configuration_to_jobs(&config).unwrap();
    let job = &mut jobs[0];
    job.requests[0].response = Some(ok_response(JsonValue::Bool(true)));
    job.requests[1].response = Some(ok_response(JsonValue::Bool(false)));
    let texts = vec!["a\nb\n".to_owned(), "a\nc\n".to_owned()];
    compute_job_diffs(job, &texts);
    assert_eq!(job.status, JobStatus::Failed);
    assert_eq!(job.requests[0].status, JobStatus::Finished);
    assert_eq!(job.requests[1].status, JobStatus::Failed);
    assert!(job.requests[1].has_diffs);
    assert!(job.requests[0]
        .diffs
        .iter()
        .all(|(tag, _)| *tag == DiffTag::Equal));
    assert!(job.requests[1]
        .diffs
        .iter()
        .any(|(tag, _)| *tag != DiffTag::Equal));
}

/// Swapping which domain is the baseline keeps the job's verdict.
#[test]
fn baseline_swap_keeps_job_verdict() {
    let config = two_domain_config(plain_endpoint("/health"));
    let texts_one = vec!["x\n".to_owned(), "y\n".to_owned()];
    let texts_two = vec!["y\n".to_owned(), "x\n".to_owned()];
    let mut jobs_one = map_configuration_to_jobs(&config).unwrap();
    let mut jobs_two = map_configuration_to_jobs(&config).unwrap();
    for job in jobs_one.iter_mut().chain(jobs_two.iter_mut()) {
        job.requests[0].response = Some(ok_response(JsonValue::Null));
        job.requests[1].response = Some(ok_response(JsonValue::Null));
    }
    compute_job_diffs(&mut jobs_one[0], &texts_one);
    compute_job_diffs(&mut jobs_two[0], &texts_two);
    assert_eq!(jobs_one[0].status, JobStatus::Failed);
    assert_eq!(jobs_two[0].status, JobStatus::Failed);
}

/// A transport failure fails its request even with equal texts.
#[test]
fn transport_failure_fails_the_request() {
    let config = two_domain_config(plain_endpoint("/health"));
    let mut jobs = map_configuration_to_jobs(&config).unwrap();
    let job = &mut jobs[0];
    job.requests[0].response = Some(ok_response(JsonValue::Null));
    job.requests[1].response = Some(ResponseVariant::Fail("connection refused".to_owned()));
    let texts = vec!["t\n".to_owned(), "t\n".to_owned()];
    compute_job_diffs(job, &texts);
    assert_eq!(job.requests[0].status, JobStatus::Finished);
    assert_eq!(job.requests[1].status, JobStatus::Failed);
    assert!(!job.requests[1].has_diffs);
    assert_eq!(job.status, JobStatus::Failed);
}

/// A missing response is a validation error before any diffing.
#[test]
fn missing_response_is_a_validation_error() {
    let config = two_domain_config(plain_endpoint("/health"));
    let mut jobs = map_configuration_to_jobs(&config).unwrap();
    let job = &mut jobs[0];
    job.requests[0].response = Some(ok_response(JsonValue::Null));
    let err = response_payloads(job).unwrap_err();
    assert!(matches!(err, AppError::ValidationError(_)));
}

/// The builder's answer replaces the body of a request; a failing builder
/// carries its stderr verbatim.
#[test]
fn builder_rewrites_body_and_failure_carries_stderr() {
    let config = two_domain_config(plain_endpoint("/health"));
    let mut jobs = map_configuration_to_jobs(&config).unwrap();
    let job = &mut jobs[0];
    let output = JsonValue::Obj(vec![
        ("uri".to_owned(), JsonValue::Str("http://a/health".to_owned())),
        ("http_method".to_owned(), JsonValue::Str("POST".to_owned())),
        ("headers".to_owned(), JsonValue::Null),
        (
            "body".to_owned(),
            JsonValue::Obj(vec![("injected".to_owned(), JsonValue::Bool(true))]),
        ),
    ]);
    for i in 0..job.requests.len() {
        let mut request = job.requests.remove(i);
        request.apply_builder_output(&output).unwrap();
        job.requests.insert(i, request);
    }
    for request in job.requests.iter() {
        assert_eq!(
            request.body,
            Some(JsonValue::Obj(vec![(
                "injected".to_owned(),
                JsonValue::Bool(true)
            )]))
        );
        assert_eq!(request.http_method, HttpMethod::POST);
    }

    let failed = process_outcome(false, String::new(), &"bad".to_owned());
    match failed {
        Err(AppError::ValidationError(message)) => {
            assert!(message.contains("bad"));
        }
        _ => panic!("a failing child must yield a validation error"),
    }
}

/// A reload arriving during a batch stops it and is run next; a new
/// start-all only stops it.
#[test]
fn reload_during_batch_stops_and_reloads() {
    let reload = batch_event_decision(&AppAction::ReloadConfigurationFile("c.json".to_owned()));
    assert_eq!(reload, BatchControl::StopAndReload("c.json".to_owned()));
    let restart = batch_event_decision(&AppAction::StartAllJobs);
    assert_eq!(restart, BatchControl::StopBatch);
    let other = batch_event_decision(&AppAction::Quit);
    assert_eq!(other, BatchControl::Continue);
}

/// The limiter refuses a start beyond its bound and frees slots on finish.
#[test]
fn scheduler_bounds_running_jobs() {
    let mut limiter = Scheduler::new(2, 3);
    assert!(limiter.try_start(0));
    assert!(limiter.try_start(1));
    assert!(!limiter.try_start(2));
    limiter.finish(0, false);
    assert!(limiter.try_start(2));
    assert_eq!(limiter.states[0], JobStatus::Finished);
    limiter.finish(1, true);
    assert_eq!(limiter.states[1], JobStatus::Failed);
}

/// Endpoint headers win over domain headers on a shared name.
#[test]
fn endpoint_header_wins_on_collision() {
    let mut domain = StringMap { entries: Vec::new() };
    domain.insert("x".to_owned(), HeaderValue::String("domain".to_owned()));
    domain.insert("keep".to_owned(), HeaderValue::U64(1));
    let mut endpoint = StringMap { entries: Vec::new() };
    endpoint.insert("x".to_owned(), HeaderValue::String("endpoint".to_owned()));
    let merged = build_endpoint_headers(Some(domain), Some(endpoint)).unwrap();
    assert_eq!(
        merged.get_value(&"x".to_owned()),
        Some(&HeaderValue::String("endpoint".to_owned()))
    );
    assert_eq!(merged.get_value(&"keep".to_owned()), Some(&HeaderValue::U64(1)));
    assert!(build_endpoint_headers(None, None).is_none());
}

/// The expansion count is the sum over endpoints of the product of the
/// sizes of the variables their placeholders name.
#[test]
fn expansion_count_follows_the_formula() {
    let mut e1 = plain_endpoint("/a/<p>/<q>");
    let mut vars = StringMap { entries: Vec::new() };
    vars.insert(
        "p".to_owned(),
        PathVariable::MultipleValues(vec![
            PathVariableValue::Int(1),
            PathVariableValue::Int(2),
            PathVariableValue::Int(3),
        ]),
    );
    vars.insert(
        "q".to_owned(),
        PathVariable::MultipleValues(vec![
            PathVariableValue::String("x".to_owned()),
            PathVariableValue::String("y".to_owned()),
        ]),
    );
    e1.variables = Some(vars);
    let e2 = plain_endpoint("/b/<unbound>");
    let config = Configuration {
        domains: vec![
            DomainVariant::Url("http://a/".to_owned()),
            DomainVariant::Url("http://b/".to_owned()),
        ],
        endpoints: vec![e1, e2],
        variables: None,
        concurrent_jobs: 20,
    };
    let jobs = map_configuration_to_jobs(&config).unwrap();
    // 3 * 2 combinations, plus one job for the endpoint with no bound placeholder
    assert_eq!(jobs.len(), 7);
    assert_eq!(jobs[6].job_name, "/b/<unbound>");
}

/// A drawn emoji is never empty, whatever chance picks.
#[test]
fn random_emoji_is_nonempty() {
    let happy = http_diff::utils::get_random_emoji(http_diff::utils::EmojiType::Happy);
    let sad = http_diff::utils::get_random_emoji(http_diff::utils::EmojiType::Sad);
    assert!(!happy.is_empty());
    assert!(!sad.is_empty());
}
