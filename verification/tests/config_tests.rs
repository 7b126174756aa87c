use http_diff::config::{
    Configuration, DomainVariant, EndpointConfiguration, UrlWithOptionalHeaders,
    load_configuration_from_json,
};
use http_diff::json::JsonValue;
use http_diff::types::{
    HeaderValue, HttpMethod, PathVariable, PathVariableValue, StringMap, VariableGenerator,
    VariablesMap,
};

/// Turns a parsed serde_json document into the library's JSON value.
pub fn to_json_value(v: serde_json::Value) -> JsonValue {
    match v {
        serde_json::Value::Null => JsonValue::Null,
        serde_json::Value::Bool(b) => JsonValue::Bool(b),
        serde_json::Value::Number(n) => {
            if let Some(u) = n.as_u64() {
                JsonValue::UInt(u)
            } else if let Some(i) = n.as_i64() {
                JsonValue::Int(i)
            } else {
                JsonValue::Num(n.to_string())
            }
        }
        serde_json::Value::String(s) => JsonValue::Str(s),
        serde_json::Value::Array(items) => {
            JsonValue::Arr(items.into_iter().map(to_json_value).collect())
        }
        serde_json::Value::Object(fields) => JsonValue::Obj(
            fields.into_iter().map(|(k, x)| (k, to_json_value(x))).collect(),
        ),
    }
}

pub fn parse_text(text: &str) -> Result<Configuration, http_diff::types::AppError> {
    let raw: serde_json::Value = serde_json::from_str(text).unwrap();
    load_configuration_from_json(&to_json_value(raw))
}

fn headers_from(pairs: Vec<(&str, HeaderValue)>) -> StringMap<HeaderValue> {
    let mut m = StringMap { entries: Vec::new() };
    for (k, v) in pairs {
        m.insert(k.to_owned(), v);
    }
    m
}

#[test]
pub fn test_parses_config_string() {
    let config_json_string = r#"
    {
      "domains": [
        "http://domain-a.com",
        {
          "domain": "http://domain-b.com/",
          "headers": {
            "cookie": "auth=test"
          }
        }
      ],
      "endpoints": [
        {
          "endpoint": "/health",
          "request_builder": [
            "python3",
            "script.py"
          ],
          "headers": {
            "X-test": "custom-endpoint-header"
          }
        },
        {
          "endpoint": "/api/v1/users/<userId>",
          "http_method": "POST"
        },
        {
          "endpoint": "/api/v1/products?omit_id=<productId>&include_empty=<include_empty>",
          "response_processor": ["jq", "del(.headers.date)"],
          "variables": {
            "include_empty": [
              "true",
              "false"
            ]
          }
        },
        {
          "endpoint": "/api/v1/carts?status=<status>",
          "request_builder": [
            "python3",
            "script.py"
          ],
          "response_processor": ["jq", "del(.headers.date)"],
          "variables": {
            "status": [
              "pending",
              "empty"
            ]
          }
        }
      ],
      "variables": {
        "userId": [
          123,
          444
        ],
        "productId": "UUID"
      }
    }    
    "#;

    let actual = parse_text(config_json_string).unwrap();

    // serde_json hands object members over in key order
    let mut expected_global_variables: VariablesMap = StringMap { entries: Vec::new() };

    expected_global_variables.insert(
        "productId".to_string(),
        PathVariable::SingleValue(PathVariableValue::Generator(VariableGenerator::UUID)),
    );

    expected_global_variables.insert(
        "userId".to_string(),
        PathVariable::MultipleValues(vec![
            PathVariableValue::Int(123),
            PathVariableValue::Int(444),
        ]),
    );

    let mut expected_product_variables: VariablesMap = StringMap { entries: Vec::new() };

    expected_product_variables.insert(
        "include_empty".to_string(),
        PathVariable::MultipleValues(vec![
            PathVariableValue::String("true".to_string()),
            PathVariableValue::String("false".to_string()),
        ]),
    );

    let mut expected_cart_variables: VariablesMap = StringMap { entries: Vec::new() };

    expected_cart_variables.insert(
        "status".to_string(),
        PathVariable::MultipleValues(vec![
            PathVariableValue::String("pending".to_string()),
            PathVariableValue::String("empty".to_string()),
        ]),
    );

    let second_domain_config = UrlWithOptionalHeaders {
        domain: "http://domain-b.com/".to_owned(),
        headers: Some(headers_from(vec![(
            "cookie",
            HeaderValue::String("auth=test".to_owned()),
        )])),
    };

    let health_endpoint_headers = headers_from(vec![(
        "X-test",
        HeaderValue::String("custom-endpoint-header".to_owned()),
    )]);

    let expected = Configuration {
        domains: vec![
            DomainVariant::Url("http://domain-a.com/".to_owned()),
            DomainVariant::UrlWithHeaders(second_domain_config),
        ],
        endpoints: vec![
            EndpointConfiguration {
                endpoint: "/health".to_string(),
                variables: None,
                http_method: None,
                headers: Some(health_endpoint_headers),
                body: None,
                response_processor: None,
                request_builder: Some(vec!["python3".to_owned(), "script.py".to_owned()]),
            },
            EndpointConfiguration {
                endpoint: "/api/v1/users/<userId>".to_string(),
                variables: None,
                http_method: Some(HttpMethod::POST),
                headers: None,
                body: None,
                response_processor: None,
                request_builder: None,
            },
            EndpointConfiguration {
                endpoint: "/api/v1/products?omit_id=<productId>&include_empty=<include_empty>"
                    .to_string(),
                variables: Some(expected_product_variables),
                http_method: None,
                headers: None,
                body: None,
                response_processor: Some(vec!["jq".to_owned(), "del(.headers.date)".to_owned()]),
                request_builder: None,
            },
            EndpointConfiguration {
                endpoint: "/api/v1/carts?status=<status>".to_string(),
                variables: Some(expected_cart_variables),
                http_method: None,
                headers: None,
                body: None,
                response_processor: Some(vec!["jq".to_owned(), "del(.headers.date)".to_owned()]),
                request_builder: Some(vec!["python3".to_owned(), "script.py".to_owned()]),
            },
        ],
        variables: Some(expected_global_variables),
        concurrent_jobs: 20,
    };

    assert_eq!(actual, expected)
}

#[test]
pub fn test_round_trip_of_parsed_configuration() {
    let text = r#"
    {
      "domains": ["http://domain-a.com", "http://domain-b.com"],
      "endpoints": [{"endpoint": "/health"}],
      "variables": {"userId": [1, 2], "flag": "UUID"},
      "concurrent_jobs": 7
    }
    "#;
    let first = parse_text(text).unwrap();
    let written = http_diff::config::encode_configuration(&first);
    let second = load_configuration_from_json(&written).unwrap();
    assert_eq!(first, second);
}

#[test]
pub fn test_rejects_single_domain() {
    let text = r#"{"domains": ["http://domain-a.com"], "endpoints": [{"endpoint": "/x"}]}"#;
    let err = parse_text(text).unwrap_err();
    assert!(matches!(err, http_diff::types::AppError::ValidationError(_)));
}

#[test]
pub fn test_rejects_missing_endpoints() {
    let text = r#"{"domains": ["http://a.com", "http://b.com"], "endpoints": []}"#;
    let err = parse_text(text).unwrap_err();
    assert!(matches!(err, http_diff::types::AppError::ValidationError(_)));
}

#[test]
pub fn test_rejects_bad_url() {
    let text = r#"{"domains": ["not a url", "http://b.com"], "endpoints": [{"endpoint": "/x"}]}"#;
    let err = parse_text(text).unwrap_err();
    assert!(matches!(err, http_diff::types::AppError::FailedToParseConfig(_)));
}

#[test]
pub fn test_rejects_malformed_document() {
    let text = r#"{"domains": "nope", "endpoints": [{"endpoint": "/x"}]}"#;
    let err = parse_text(text).unwrap_err();
    assert!(matches!(err, http_diff::types::AppError::FailedToParseConfig(_)));
}

#[test]
pub fn test_non_integral_body_survives_the_round_trip() {
    let text = r#"
    {
      "domains": ["http://a.com", "http://b.com"],
      "endpoints": [{"endpoint": "/x", "body": {"ratio": 0.5, "count": 3}}]
    }
    "#;
    let first = parse_text(text).unwrap();
    assert_eq!(
        first.endpoints[0].body,
        Some(JsonValue::Obj(vec![
            ("count".to_owned(), JsonValue::UInt(3)),
            ("ratio".to_owned(), JsonValue::Num("0.5".to_owned())),
        ]))
    );
    let written = http_diff::config::encode_configuration(&first);
    let second = load_configuration_from_json(&written).unwrap();
    assert_eq!(first, second);
}
