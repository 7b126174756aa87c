use http_diff::json::{json_to_pretty_string, JsonValue};
use http_diff::request::{serialize_response, Request, Response, ResponseVariant};
use http_diff::types::{HeaderValue, HttpMethod, JobStatus, StringMap};
use http_diff::text::clean_special_chars_for_filename;
use http_diff::utils::{prettify_duration, render_table_row};
use http_diff::text::get_placeholders_from_string;

/// The serializer prints two-space indented JSON with headers in key order,
/// whatever order they were stored in.
#[test]
fn serialized_response_is_pretty_and_header_sorted() {
    let mut headers = StringMap { entries: Vec::new() };
    headers.insert("zeta".to_owned(), HeaderValue::U64(7));
    headers.insert("alpha".to_owned(), HeaderValue::String("x".to_owned()));
    let response = ResponseVariant::Success(Response {
        status_code: 200,
        content_length: None,
        headers,
        body: Some(JsonValue::Obj(vec![("ok".to_owned(), JsonValue::Bool(true))])),
    });
    let expected = "{\n  \"status_code\": 200,\n  \"content_length\": null,\n  \"headers\": {\n    \"alpha\": \"x\",\n    \"zeta\": 7\n  },\n  \"body\": {\n    \"ok\": true\n  }\n}";
    assert_eq!(serialize_response(&response), expected);
}

/// A transport failure serializes as its message in a JSON string literal.
#[test]
fn serialized_failure_is_a_string_literal() {
    let response = ResponseVariant::Fail("boom \"quoted\"".to_owned());
    assert_eq!(serialize_response(&response), "\"boom \\\"quoted\\\"\"");
}

/// String escapes cover quotes, backslashes and control characters.
#[test]
fn json_strings_escape_control_characters() {
    let v = JsonValue::Str("a\"b\\c\nd\u{1}e".to_owned());
    assert_eq!(json_to_pretty_string(&v), "\"a\\\"b\\\\c\\nd\\u0001e\"");
}

/// The status text shows the outcome, the code and the wall time.
#[test]
fn status_text_shows_code_and_time() {
    let request = Request {
        uri: "http://a/x".to_owned(),
        status: JobStatus::Finished,
        http_method: HttpMethod::GET,
        headers: None,
        body: None,
        job_duration: Some(1234),
        response: Some(ResponseVariant::Success(Response {
            status_code: 200,
            content_length: None,
            headers: StringMap { entries: Vec::new() },
            body: None,
        })),
        diffs: Vec::new(),
        has_diffs: false,
    };
    assert_eq!(request.get_status_text(), " SUCCESS - 200 - in 1.23 sec");
}

/// Fractional durations keep two decimals; values near a whole second carry over.
#[test]
fn fractional_durations_round_to_centiseconds() {
    assert_eq!(prettify_duration(29_350), "29.35 seconds");
    assert_eq!(prettify_duration(0), "0.0 seconds");
    assert_eq!(prettify_duration(999), "1.0 seconds");
}

/// A table row joins 25-character cells with a separator.
#[test]
fn table_rows_join_fitted_cells() {
    let cells = vec!["/health".to_owned(), " SUCCESS".to_owned()];
    let row = render_table_row(&cells);
    assert_eq!(row, format!("{:<25} | {:<25}", "/health", " SUCCESS"));
}

/// File names lose the characters that file systems refuse.
#[test]
fn filenames_lose_special_characters() {
    assert_eq!(
        clean_special_chars_for_filename("http://a/x?q=<v>"),
        "http:  a x q= v "
    );
    assert_eq!(clean_special_chars_for_filename("a<b>c\"d/e\\f|g?h*i"), "a b c d e f g h i");
}

/// Placeholders are the non-empty names between angle brackets.
#[test]
fn placeholders_are_collected_in_order() {
    assert_eq!(
        get_placeholders_from_string("/u/<id>/p/<page>?x=<id>"),
        vec!["id".to_owned(), "page".to_owned(), "id".to_owned()]
    );
    assert_eq!(get_placeholders_from_string("/plain"), Vec::<String>::new());
    assert_eq!(get_placeholders_from_string("/odd<>x<ok>"), vec!["ok".to_owned()]);
}

/// A non-integral number prints back exactly as its source text.
#[test]
fn non_integral_numbers_render_verbatim() {
    let v = JsonValue::Arr(vec![
        JsonValue::Num("0.5".to_owned()),
        JsonValue::Num("1e10".to_owned()),
        JsonValue::Int(-2),
    ]);
    assert_eq!(json_to_pretty_string(&v), "[\n  0.5,\n  1e10,\n  -2\n]");
}
