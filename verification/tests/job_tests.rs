use http_diff::config::{
    Configuration, DomainVariant, EndpointConfiguration, UrlWithOptionalHeaders,
};
use http_diff::job::Job;
use http_diff::mapper::map_configuration_to_jobs;
use http_diff::request::Request;
use http_diff::types::{
    HeaderValue, HeadersMap, HttpMethod, JobStatus, PathVariable, PathVariableValue, StringMap,
};

fn headers_from(pairs: Vec<(&str, HeaderValue)>) -> HeadersMap {
    let mut m = StringMap { entries: Vec::new() };
    for (k, v) in pairs {
        m.insert(k.to_owned(), v);
    }
    m
}

fn pending_request(uri: &str, method: HttpMethod, headers: Option<HeadersMap>) -> Request {
    Request {
        uri: uri.to_owned(),
        http_method: method,
        status: JobStatus::Pending,
        job_duration: None,
        response: None,
        diffs: Vec::new(),
        has_diffs: false,
        headers,
        body: None,
    }
}

#[test]
pub fn test_convert_config_jobs() {
    let mut expected_global_variables = StringMap { entries: Vec::new() };

    expected_global_variables.insert(
        "userId".to_string(),
        PathVariable::MultipleValues(vec![
            PathVariableValue::Int(123),
            PathVariableValue::Int(444),
        ]),
    );

    expected_global_variables.insert(
        "status".to_string(),
        PathVariable::SingleValue(PathVariableValue::String("deleted".to_string())),
    );

    let domain_headers = headers_from(vec![(
        "cookie",
        HeaderValue::String("auth=check".to_owned()),
    )]);

    let domain_with_headers_config = UrlWithOptionalHeaders {
        domain: "http://domain-with-specific-headers.com".to_owned(),
        headers: Some(domain_headers),
    };

    let endpoint_headers = headers_from(vec![(
        "X-test",
        HeaderValue::String("test=true".to_owned()),
    )]);

    let mut account_variables = StringMap { entries: Vec::new() };
    account_variables.insert(
        "admin_flag".to_owned(),
        PathVariable::MultipleValues(vec![
            PathVariableValue::String("true".to_string()),
            PathVariableValue::String("false".to_string()),
        ]),
    );
    account_variables.insert(
        "accountId".to_owned(),
        PathVariable::SingleValue(PathVariableValue::Int(123)),
    );

    let configuration = Configuration {
        domains: vec![
            DomainVariant::Url("http://domain-a.com".to_owned()),
            DomainVariant::Url("http://domain-b.com".to_owned()),
            DomainVariant::UrlWithHeaders(domain_with_headers_config),
        ],
        endpoints: vec![
            EndpointConfiguration {
                endpoint: "/health".to_string(),
                variables: None,
                http_method: None,
                headers: None,
                body: None,
                response_processor: None,
                request_builder: None,
            },
            EndpointConfiguration {
                endpoint: "/api/v1/users/<userId>?status=<status>".to_string(),
                variables: None,
                http_method: Some(HttpMethod::POST),
                headers: None,
                body: None,
                response_processor: None,
                request_builder: None,
            },
            EndpointConfiguration {
                endpoint: "/api/v1/accounts/<accountId>?admin=<admin_flag>".to_string(),
                variables: Some(account_variables),
                http_method: Some(HttpMethod::GET),
                headers: Some(endpoint_headers),
                body: None,
                response_processor: None,
                request_builder: None,
            },
        ],
        variables: Some(expected_global_variables),
        concurrent_jobs: 20,
    };

    let actual_jobs = map_configuration_to_jobs(&configuration).unwrap();

    let cookie = || HeaderValue::String("auth=check".to_owned());
    let xtest = || HeaderValue::String("test=true".to_owned());

    let expected_jobs = vec![
        Job {
            requests: vec![
                pending_request("http://domain-a.com/health", HttpMethod::GET, None),
                pending_request("http://domain-b.com/health", HttpMethod::GET, None),
                pending_request(
                    "http://domain-with-specific-headers.com/health",
                    HttpMethod::GET,
                    Some(headers_from(vec![("cookie", cookie())])),
                ),
            ],
            status: JobStatus::Pending,
            job_duration: None,
            job_name: "/health".to_string(),
            response_processor: None,
            request_builder: None,
        },
        Job {
            requests: vec![
                pending_request(
                    "http://domain-a.com/api/v1/users/123?status=deleted",
                    HttpMethod::POST,
                    None,
                ),
                pending_request(
                    "http://domain-b.com/api/v1/users/123?status=deleted",
                    HttpMethod::POST,
                    None,
                ),
                pending_request(
                    "http://domain-with-specific-headers.com/api/v1/users/123?status=deleted",
                    HttpMethod::POST,
                    Some(headers_from(vec![("cookie", cookie())])),
                ),
            ],
            status: JobStatus::Pending,
            job_duration: None,
            job_name: "/api/v1/users/123?status=deleted".to_string(),
            response_processor: None,
            request_builder: None,
        },
        Job {
            requests: vec![
                pending_request(
                    "http://domain-a.com/api/v1/users/444?status=deleted",
                    HttpMethod::POST,
                    None,
                ),
                pending_request(
                    "http://domain-b.com/api/v1/users/444?status=deleted",
                    HttpMethod::POST,
                    None,
                ),
                pending_request(
                    "http://domain-with-specific-headers.com/api/v1/users/444?status=deleted",
                    HttpMethod::POST,
                    Some(headers_from(vec![("cookie", cookie())])),
                ),
            ],
            status: JobStatus::Pending,
            job_duration: None,
            job_name: "/api/v1/users/444?status=deleted".to_string(),
            response_processor: None,
            request_builder: None,
        },
        Job {
            requests: vec![
                pending_request(
                    "http://domain-a.com/api/v1/accounts/123?admin=true",
                    HttpMethod::GET,
                    Some(headers_from(vec![("X-test", xtest())])),
                ),
                pending_request(
                    "http://domain-b.com/api/v1/accounts/123?admin=true",
                    HttpMethod::GET,
                    Some(headers_from(vec![("X-test", xtest())])),
                ),
                pending_request(
                    "http://domain-with-specific-headers.com/api/v1/accounts/123?admin=true",
                    HttpMethod::GET,
                    Some(headers_from(vec![("cookie", cookie()), ("X-test", xtest())])),
                ),
            ],
            status: JobStatus::Pending,
            job_duration: None,
            job_name: "/api/v1/accounts/123?admin=true".to_string(),
            response_processor: None,
            request_builder: None,
        },
        Job {
            requests: vec![
                pending_request(
                    "http://domain-a.com/api/v1/accounts/123?admin=false",
                    HttpMethod::GET,
                    Some(headers_from(vec![("X-test", xtest())])),
                ),
                pending_request(
                    "http://domain-b.com/api/v1/accounts/123?admin=false",
                    HttpMethod::GET,
                    Some(headers_from(vec![("X-test", xtest())])),
                ),
                pending_request(
                    "http://domain-with-specific-headers.com/api/v1/accounts/123?admin=false",
                    HttpMethod::GET,
                    Some(headers_from(vec![("cookie", cookie()), ("X-test", xtest())])),
                ),
            ],
            status: JobStatus::Pending,
            job_duration: None,
            job_name: "/api/v1/accounts/123?admin=false".to_string(),
            response_processor: None,
            request_builder: None,
        },
    ];

    assert_eq!(actual_jobs, expected_jobs)
}
