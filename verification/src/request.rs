use vstd::prelude::*;
use crate::types::{AppError, HeaderValue, HeadersMap, HttpMethod, JobStatus, StringMap};
use crate::json::{JsonData, JsonValue};
use crate::config::{HeadersModel, HvModel, hm_model, se_header_value, se_method, sd_headers,
    sd_method, jlookup};
use crate::diff::{DiffTag, diffs_model, has_changes};
use crate::utils::{dec_str, dec2_str};

verus! {

/// A transport-successful exchange: status, size, headers and parsed body.
#[derive(Debug, PartialEq)]
pub struct Response {
    pub status_code: u16,
    pub content_length: Option<u64>,
    pub headers: HeadersMap,
    pub body: Option<JsonValue>,
}

/// What a request ended in: an exchange, or a transport error's text.
#[derive(Debug, PartialEq)]
pub enum ResponseVariant {
    Success(Response),
    Fail(String),
}

/// One outbound call of a job: where it goes, what it sends, and what came
/// back.
#[derive(Debug, PartialEq)]
pub struct Request {
    pub uri: String,
    pub status: JobStatus,
    pub http_method: HttpMethod,
    pub headers: Option<HeadersMap>,
    pub body: Option<JsonValue>,
    pub job_duration: Option<u64>,
    pub response: Option<ResponseVariant>,
    pub diffs: Vec<(DiffTag, String)>,
    pub has_diffs: bool,
}

/// The shape a request builder reads and writes: the rewritable part of a
/// request.
#[derive(Debug, PartialEq)]
pub struct RequestBuilderDTO {
    pub uri: String,
    pub http_method: HttpMethod,
    pub headers: Option<HeadersMap>,
    pub body: Option<JsonValue>,
}

pub ghost struct ResponseModel {
    pub status_code: u16,
    pub content_length: Option<u64>,
    pub headers: HeadersModel,
    pub body: Option<JsonData>,
}

pub ghost enum RespVariantModel {
    Success(ResponseModel),
    Fail(Seq<char>),
}

pub ghost struct RequestModel {
    pub uri: Seq<char>,
    pub status: JobStatus,
    pub http_method: HttpMethod,
    pub headers: Option<HeadersModel>,
    pub body: Option<JsonData>,
    pub job_duration: Option<u64>,
    pub response: Option<RespVariantModel>,
    pub diffs: Seq<(DiffTag, Seq<char>)>,
    pub has_diffs: bool,
}

pub ghost struct BuilderDtoModel {
    pub uri: Seq<char>,
    pub http_method: HttpMethod,
    pub headers: Option<HeadersModel>,
    pub body: Option<JsonData>,
}

impl View for Response {
    type V = ResponseModel;

    open spec fn view(&self) -> ResponseModel {
        ResponseModel {
            status_code: self.status_code,
            content_length: self.content_length,
            headers: hm_model(self.headers),
            body: match self.body {
                Some(b) => Some(b@),
                None => None,
            },
        }
    }
}

impl View for ResponseVariant {
    type V = RespVariantModel;

    open spec fn view(&self) -> RespVariantModel {
        match self {
            ResponseVariant::Success(r) => RespVariantModel::Success(r@),
            ResponseVariant::Fail(s) => RespVariantModel::Fail(s@),
        }
    }
}

impl View for Request {
    type V = RequestModel;

    open spec fn view(&self) -> RequestModel {
        RequestModel {
            uri: self.uri@,
            status: self.status,
            http_method: self.http_method,
            headers: match self.headers {
                Some(h) => Some(hm_model(h)),
                None => None,
            },
            body: match self.body {
                Some(b) => Some(b@),
                None => None,
            },
            job_duration: self.job_duration,
            response: match self.response {
                Some(r) => Some(r@),
                None => None,
            },
            diffs: diffs_model(self.diffs@),
            has_diffs: self.has_diffs,
        }
    }
}

impl View for RequestBuilderDTO {
    type V = BuilderDtoModel;

    open spec fn view(&self) -> BuilderDtoModel {
        BuilderDtoModel {
            uri: self.uri@,
            http_method: self.http_method,
            headers: match self.headers {
                Some(h) => Some(hm_model(h)),
                None => None,
            },
            body: match self.body {
                Some(b) => Some(b@),
                None => None,
            },
        }
    }
}

impl Request {
    /// A fresh pending request to `uri`.
    pub fn new(
        uri: &String,
        http_method: &HttpMethod,
        headers: Option<HeadersMap>,
        body: Option<JsonValue>,
    ) -> (r: Request)
        ensures
            r@.uri == uri@,
            r@.http_method == *http_method,
            r@.headers == match headers {
                Some(h) => Some(hm_model(h)),
                None => None::<HeadersModel>,
            },
            r@.body == match body {
                Some(b) => Some(b@),
                None => None::<JsonData>,
            },
            r@.status == JobStatus::Pending,
            r@.job_duration is None,
            r@.response is None,
            r@.diffs.len() == 0,
            r@.has_diffs == false,
    {
        Request {
            uri: uri.clone(),
            http_method: *http_method,
            status: JobStatus::Pending,
            job_duration: None,
            response: None,
            diffs: Vec::new(),
            headers,
            body,
            has_diffs: false,
        }
    }

    /// Puts the request back to pending; what came back is dropped, and with
    /// no diff entries left, no difference is flagged.
    pub fn reset(&mut self)
        ensures
            final(self)@ == (RequestModel {
                status: JobStatus::Pending,
                job_duration: None,
                response: None,
                diffs: Seq::empty(),
                has_diffs: false,
                ..old(self)@
            }),
    {
        self.status = JobStatus::Pending;
        self.job_duration = None;
        self.response = None;
        self.diffs = Vec::new();
        self.has_diffs = false;
        proof {
            assert(final(self)@.diffs =~= Seq::<(DiffTag, Seq<char>)>::empty());
        }
    }

    /// Takes over what the request builder rewrote.
    pub fn apply_request_builder_dto(&mut self, dto: RequestBuilderDTO)
        ensures
            final(self)@ == (RequestModel {
                uri: dto@.uri,
                http_method: dto@.http_method,
                headers: dto@.headers,
                body: dto@.body,
                ..old(self)@
            }),
    {
        let RequestBuilderDTO { uri, http_method, headers, body } = dto;
        self.uri = uri;
        self.body = body;
        self.headers = headers;
        self.http_method = http_method;
    }

    /// Stores the diff against the baseline and classifies the request:
    /// failed exactly when some line differs or the transport failed.
    pub fn set_diffs_and_calculate_status(&mut self, diffs: Vec<(DiffTag, String)>)
        ensures
            final(self)@.diffs == diffs_model(diffs@),
            final(self)@.has_diffs == has_changes(diffs_model(diffs@)),
            final(self)@.status == (if has_changes(diffs_model(diffs@)) || (old(
                self,
            )@.response matches Some(RespVariantModel::Fail(_))) {
                JobStatus::Failed
            } else {
                JobStatus::Finished
            }),
            final(self)@ == (RequestModel {
                diffs: final(self)@.diffs,
                has_diffs: final(self)@.has_diffs,
                status: final(self)@.status,
                ..old(self)@
            }),
    {
        let n = diffs.len();
        let mut has_diffs = false;
        let mut i: usize = 0;
        while i < n
            invariant
                n == diffs@.len(),
                0 <= i <= n,
                has_diffs == exists|j: int|
                    0 <= j < i && diffs_model(diffs@)[j].0 != DiffTag::Equal,
            decreases n - i,
        {
            if !matches!(diffs[i].0, DiffTag::Equal) {
                proof {
                    assert(diffs_model(diffs@)[i as int].0 != DiffTag::Equal);
                }
                has_diffs = true;
            }
            i = i + 1;
        }
        self.has_diffs = has_diffs;
        self.diffs = diffs;
        if has_diffs {
            self.status = JobStatus::Failed;
        } else {
            let request_failed = match &self.response {
                Some(ResponseVariant::Fail(_)) => true,
                _ => false,
            };
            self.status = if request_failed {
                JobStatus::Failed
            } else {
                JobStatus::Finished
            };
        }
    }
}

// ------------------------- header ordering -------------------------

/// Strict lexicographic order on texts, by code point.
pub open spec fn lex_lt(a: Seq<char>, b: Seq<char>) -> bool
    decreases a.len(),
{
    if b.len() == 0 {
        false
    } else if a.len() == 0 {
        true
    } else if a[0] != b[0] {
        (a[0] as u32) < (b[0] as u32)
    } else {
        lex_lt(a.skip(1), b.skip(1))
    }
}

/// Strict lexicographic comparison of two texts.
pub fn str_lex_lt(a: &str, b: &str) -> (r: bool)
    ensures
        r == lex_lt(a@, b@),
{
    let an = a.unicode_len();
    let bn = b.unicode_len();
    let mut i: usize = 0;
    proof {
        assert(a@.skip(0) =~= a@);
        assert(b@.skip(0) =~= b@);
    }
    while i < an && i < bn
        invariant
            an == a@.len(),
            bn == b@.len(),
            0 <= i <= an,
            0 <= i <= bn,
            lex_lt(a@, b@) == lex_lt(a@.skip(i as int), b@.skip(i as int)),
        decreases an - i,
    {
        let ca = a.get_char(i);
        let cb = b.get_char(i);
        proof {
            assert(a@.skip(i as int)[0] == ca);
            assert(b@.skip(i as int)[0] == cb);
            assert(a@.skip(i as int).skip(1) =~= a@.skip(i + 1));
            assert(b@.skip(i as int).skip(1) =~= b@.skip(i + 1));
        }
        if ca != cb {
            return (ca as u32) < (cb as u32);
        }
        i = i + 1;
    }
    proof {
        if i >= bn {
            assert(b@.skip(i as int).len() == 0);
        } else {
            assert(a@.skip(i as int).len() == 0);
            assert(b@.skip(i as int).len() > 0);
        }
    }
    i < bn
}

/// `e` placed into `s` before the first entry whose key is greater.
pub open spec fn insert_sorted_hdr(s: HeadersModel, e: (Seq<char>, HvModel)) -> HeadersModel
    decreases s.len(),
{
    if s.len() == 0 {
        seq![e]
    } else if lex_lt(e.0, s[0].0) {
        seq![e] + s
    } else {
        seq![s[0]] + insert_sorted_hdr(s.skip(1), e)
    }
}

/// The entries reordered by key, insertion by insertion.
pub open spec fn sort_hdrs(s: HeadersModel) -> HeadersModel
    decreases s.len(),
{
    if s.len() == 0 {
        Seq::empty()
    } else {
        insert_sorted_hdr(sort_hdrs(s.drop_last()), s.last())
    }
}

pub proof fn lemma_insert_sorted_at(s: HeadersModel, e: (Seq<char>, HvModel), j: int)
    requires
        0 <= j <= s.len(),
        forall|k: int| 0 <= k < j ==> !lex_lt(e.0, (#[trigger] s[k]).0),
        j < s.len() ==> lex_lt(e.0, s[j].0),
    ensures
        insert_sorted_hdr(s, e) == s.take(j) + seq![e] + s.skip(j),
    decreases j,
{
    if s.len() == 0 {
        assert(insert_sorted_hdr(s, e) =~= s.take(j) + seq![e] + s.skip(j));
    } else if j == 0 {
        assert(insert_sorted_hdr(s, e) == seq![e] + s);
        assert(s.take(0) + seq![e] + s.skip(0) =~= seq![e] + s);
    } else {
        lemma_insert_sorted_at(s.skip(1), e, j - 1);
        assert(!lex_lt(e.0, s[0].0));
        assert(insert_sorted_hdr(s, e) == seq![s[0]] + insert_sorted_hdr(s.skip(1), e));
        assert forall|k: int| 0 <= k < j - 1 implies !lex_lt(e.0, (#[trigger] s.skip(1)[k]).0) by {
            assert(s.skip(1)[k] == s[k + 1]);
        }
        assert(seq![s[0]] + (s.skip(1).take(j - 1) + seq![e] + s.skip(1).skip(j - 1)) =~= s.take(j)
            + seq![e] + s.skip(j));
    }
}

/// The header entries in lexicographic key order, as serialization shows
/// them.
pub fn sorted_header_entries(m: &HeadersMap) -> (r: Vec<(String, HeaderValue)>)
    ensures
        hm_entries_model(r@) == sort_hdrs(hm_model(*m)),
{
    let mut out: Vec<(String, HeaderValue)> = Vec::new();
    let n = m.entries.len();
    let mut i: usize = 0;
    proof {
        assert(hm_model(*m).take(0) =~= Seq::<(Seq<char>, HvModel)>::empty());
        assert(hm_entries_model(out@) =~= sort_hdrs(hm_model(*m).take(0)));
    }
    while i < n
        invariant
            n == m@.len(),
            0 <= i <= n,
            hm_entries_model(out@) == sort_hdrs(hm_model(*m).take(i as int)),
        decreases n - i,
    {
        let pair = &m.entries[i];
        let mut j: usize = 0;
        let on = out.len();
        while j < on && !str_lex_lt(pair.0.as_str(), out[j].0.as_str())
            invariant
                on == out@.len(),
                0 <= j <= on,
                n == m@.len(),
                0 <= i < n,
                pair.0@ == m@[i as int].0@,
                forall|k: int|
                    0 <= k < j ==> !lex_lt(m@[i as int].0@, hm_entries_model(out@)[k].0),
            decreases on - j,
        {
            proof {
                assert(hm_entries_model(out@)[j as int].0 == out@[j as int].0@);
            }
            j = j + 1;
        }
        proof {
            let cur = hm_entries_model(out@);
            lemma_insert_sorted_at(cur, (pair.0@, pair.1@), j as int);
            assert(hm_model(*m).take(i + 1) =~= hm_model(*m).take(i as int).push(
                (pair.0@, pair.1@),
            ));
            assert(hm_model(*m).take(i + 1).drop_last() =~= hm_model(*m).take(i as int));
        }
        out.insert(j, (pair.0.clone(), pair.1.clone()));
        proof {
            assert(hm_entries_model(out@) =~= sort_hdrs(hm_model(*m).take(i + 1)));
        }
        i = i + 1;
    }
    proof {
        assert(hm_model(*m).take(i as int) =~= hm_model(*m));
    }
    out
}

/// The model of a list of header entries.
pub open spec fn hm_entries_model(s: Seq<(String, HeaderValue)>) -> HeadersModel {
    Seq::new(s.len(), |i: int| (s[i].0@, s[i].1@))
}

// ------------------------- serialization -------------------------

/// A response as a JSON document: status, size, headers in key order, body;
/// a transport failure as its message text.
pub open spec fn se_response_variant(r: RespVariantModel) -> JsonData {
    match r {
        RespVariantModel::Fail(msg) => JsonData::Str(msg),
        RespVariantModel::Success(resp) => JsonData::Obj(
            seq![
                (("status_code")@, JsonData::UInt(resp.status_code as u64)),
                (
                    ("content_length")@,
                    match resp.content_length {
                        Some(n) => JsonData::UInt(n),
                        None => JsonData::Null,
                    },
                ),
                (("headers")@, se_headers_obj(sort_hdrs(resp.headers))),
                (
                    ("body")@,
                    match resp.body {
                        Some(b) => b,
                        None => JsonData::Null,
                    },
                ),
            ],
        ),
    }
}

/// An object of header entries, in the order given.
pub open spec fn se_headers_obj(hm: HeadersModel) -> JsonData {
    JsonData::Obj(
        Seq::new(
            hm.len(),
            |i: int|
                (
                    hm[i].0,
                    if 0 <= i < hm.len() {
                        se_header_value(hm[i].1)
                    } else {
                        JsonData::Null
                    },
                ),
        ),
    )
}

/// Renders a response as a JSON document value.
pub fn response_variant_to_json(r: &ResponseVariant) -> (v: JsonValue)
    ensures
        v@ == se_response_variant(r@),
{
    match r {
        ResponseVariant::Fail(msg) => JsonValue::Str(msg.clone()),
        ResponseVariant::Success(resp) => {
            let sorted = sorted_header_entries(&resp.headers);
            let mut headers_fields: Vec<(String, JsonValue)> = Vec::new();
            let hn = sorted.len();
            let mut i: usize = 0;
            while i < hn
                invariant
                    hn == sorted@.len(),
                    0 <= i <= hn,
                    headers_fields@.len() == i,
                    forall|j: int|
                        0 <= j < i ==> (#[trigger] headers_fields@[j]).0@ == hm_entries_model(
                            sorted@,
                        )[j].0 && headers_fields@[j].1@ == se_header_value(
                            hm_entries_model(sorted@)[j].1,
                        ),
                decreases hn - i,
            {
                let pair = &sorted[i];
                let value = match &pair.1 {
                    HeaderValue::String(s) => JsonValue::Str(s.clone()),
                    HeaderValue::U64(u) => JsonValue::UInt(*u),
                };
                headers_fields.push((pair.0.clone(), value));
                i = i + 1;
            }
            let headers_obj = JsonValue::Obj(headers_fields);
            proof {
                assert(headers_obj@->Obj_0 =~= se_headers_obj(
                    hm_entries_model(sorted@),
                )->Obj_0);
            }
            let content_length = match resp.content_length {
                Some(n) => JsonValue::UInt(n),
                None => JsonValue::Null,
            };
            let body = match &resp.body {
                Some(b) => b.clone(),
                None => JsonValue::Null,
            };
            let ghost clm = content_length@;
            let ghost bm = body@;
            let ghost hom = headers_obj@;
            let mut fields: Vec<(String, JsonValue)> = Vec::new();
            fields.push(
                (String::from_str("status_code"), JsonValue::UInt(resp.status_code as u64)),
            );
            fields.push((String::from_str("content_length"), content_length));
            fields.push((String::from_str("headers"), headers_obj));
            fields.push((String::from_str("body"), body));
            let v = JsonValue::Obj(fields);
            proof {
                let fm = crate::json::fmodels(fields@);
                assert(fields@.len() == 4);
                assert(fm[0] == (("status_code")@, JsonData::UInt(resp.status_code as u64)));
                assert(fm[1] == (("content_length")@, clm));
                assert(fm[2] == (("headers")@, hom));
                assert(fm[3] == (("body")@, bm));
                assert(se_response_variant(r@)->Obj_0[0] == (
                    ("status_code")@,
                    JsonData::UInt(resp.status_code as u64),
                ));
                assert(se_response_variant(r@)->Obj_0[1] == (("content_length")@, clm));
                assert(se_response_variant(r@)->Obj_0[2] == (("headers")@, hom));
                assert(se_response_variant(r@)->Obj_0[3] == (("body")@, bm));
                assert(v@->Obj_0 =~= se_response_variant(r@)->Obj_0);
            }
            v
        }
    }
}

/// The exact text a response is serialized to before diffing or saving.
pub fn serialize_response(r: &ResponseVariant) -> (t: String)
    ensures
        t@ == crate::json::spec_render(se_response_variant(r@), 0),
{
    let v = response_variant_to_json(r);
    crate::json::json_to_pretty_string(&v)
}

// ------------------------- the builder exchange -------------------------

/// The builder's payload: the rewritable part of a request as a JSON
/// document, headers in held order.
pub open spec fn se_builder_dto(b: BuilderDtoModel) -> JsonData {
    JsonData::Obj(
        seq![
            (("uri")@, JsonData::Str(b.uri)),
            (("http_method")@, se_method(b.http_method)),
            (
                ("headers")@,
                match b.headers {
                    Some(h) => se_headers_obj(h),
                    None => JsonData::Null,
                },
            ),
            (
                ("body")@,
                match b.body {
                    Some(v) => v,
                    None => JsonData::Null,
                },
            ),
        ],
    )
}

/// The rewritable part of a request.
pub fn builder_dto_of_request(r: &Request) -> (d: RequestBuilderDTO)
    ensures
        d@.uri == r@.uri,
        d@.http_method == r@.http_method,
        d@.headers == r@.headers,
        d@.body == r@.body,
{
    RequestBuilderDTO {
        uri: r.uri.clone(),
        http_method: r.http_method,
        headers: match &r.headers {
            Some(h) => Some(h.duplicate()),
            None => None,
        },
        body: match &r.body {
            Some(b) => Some(b.clone()),
            None => None,
        },
    }
}

/// Renders the builder payload for a request.
pub fn builder_payload_json(d: &RequestBuilderDTO) -> (v: JsonValue)
    ensures
        v@ == se_builder_dto(d@),
{
    let mut headers_fields: Vec<(String, JsonValue)> = Vec::new();
    let headers_value = match &d.headers {
        Some(h) => {
            let hn = h.entries.len();
            let mut i: usize = 0;
            while i < hn
                invariant
                    hn == h@.len(),
                    0 <= i <= hn,
                    headers_fields@.len() == i,
                    forall|j: int|
                        0 <= j < i ==> (#[trigger] headers_fields@[j]).0@ == hm_model(*h)[j].0
                            && headers_fields@[j].1@ == se_header_value(hm_model(*h)[j].1),
                decreases hn - i,
            {
                let pair = &h.entries[i];
                let value = match &pair.1 {
                    HeaderValue::String(s) => JsonValue::Str(s.clone()),
                    HeaderValue::U64(u) => JsonValue::UInt(*u),
                };
                headers_fields.push((pair.0.clone(), value));
                i = i + 1;
            }
            let obj = JsonValue::Obj(headers_fields);
            proof {
                assert(obj@->Obj_0 =~= se_headers_obj(hm_model(*h))->Obj_0);
            }
            obj
        }
        None => JsonValue::Null,
    };
    let body = match &d.body {
        Some(b) => b.clone(),
        None => JsonValue::Null,
    };
    let ghost hm = headers_value@;
    let ghost bm = body@;
    let mut fields: Vec<(String, JsonValue)> = Vec::new();
    fields.push((String::from_str("uri"), JsonValue::Str(d.uri.clone())));
    fields.push((String::from_str("http_method"), crate::request::method_json(&d.http_method)));
    fields.push((String::from_str("headers"), headers_value));
    fields.push((String::from_str("body"), body));
    let v = JsonValue::Obj(fields);
    proof {
        let fm = crate::json::fmodels(fields@);
        assert(fields@.len() == 4);
        assert(fm[0] == (("uri")@, JsonData::Str(d.uri@)));
        assert(fm[1] == (("http_method")@, se_method(d.http_method)));
        assert(fm[2] == (("headers")@, hm));
        assert(fm[3] == (("body")@, bm));
        assert(se_builder_dto(d@)->Obj_0[0] == (("uri")@, JsonData::Str(d.uri@)));
        assert(se_builder_dto(d@)->Obj_0[1] == (("http_method")@, se_method(d.http_method)));
        assert(se_builder_dto(d@)->Obj_0[2] == (("headers")@, hm));
        assert(se_builder_dto(d@)->Obj_0[3] == (("body")@, bm));
        assert(v@->Obj_0 =~= se_builder_dto(d@)->Obj_0);
    }
    v
}

/// The method name as a JSON value.
pub fn method_json(m: &HttpMethod) -> (v: JsonValue)
    ensures
        v@ == se_method(*m),
{
    match m {
        HttpMethod::GET => JsonValue::Str(String::from_str("GET")),
        HttpMethod::POST => JsonValue::Str(String::from_str("POST")),
        HttpMethod::PATCH => JsonValue::Str(String::from_str("PATCH")),
        HttpMethod::PUT => JsonValue::Str(String::from_str("PUT")),
        HttpMethod::DELETE => JsonValue::Str(String::from_str("DELETE")),
    }
}

/// What the builder's answer reads back as: `uri` (normalized) and
/// `http_method` are required, headers and body optional.
pub open spec fn sd_builder_dto(v: JsonData) -> Option<BuilderDtoModel> {
    match v {
        JsonData::Obj(fields) => {
            let uri = match jlookup(fields, ("uri")@) {
                Some(JsonData::Str(s)) => crate::urls::url_norm_of(s),
                _ => None,
            };
            let method = match jlookup(fields, ("http_method")@) {
                Some(x) => sd_method(x),
                None => None,
            };
            let headers = match jlookup(fields, ("headers")@) {
                None => Some(None),
                Some(JsonData::Null) => Some(None),
                Some(x) => match sd_headers(x) {
                    Some(h) => Some(Some(h)),
                    None => None,
                },
            };
            let body = match jlookup(fields, ("body")@) {
                None => None::<JsonData>,
                Some(JsonData::Null) => None,
                Some(x) => Some(x),
            };
            if uri is Some && method is Some && headers is Some {
                Some(
                    BuilderDtoModel {
                        uri: uri->Some_0,
                        http_method: method->Some_0,
                        headers: headers->Some_0,
                        body,
                    },
                )
            } else {
                None
            }
        },
        _ => None,
    }
}

impl StringMap<HeaderValue> {
    /// Copies the map entry for entry.
    pub fn duplicate(&self) -> (r: Self)
        ensures
            r@ == self@,
    {
        let mut entries: Vec<(String, HeaderValue)> = Vec::new();
        let n = self.entries.len();
        let mut i: usize = 0;
        while i < n
            invariant
                n == self@.len(),
                0 <= i <= n,
                entries@.len() == i,
                forall|j: int| 0 <= j < i ==> (#[trigger] entries@[j]) == self@[j],
            decreases n - i,
        {
            let pair = &self.entries[i];
            entries.push((pair.0.clone(), pair.1.clone()));
            i = i + 1;
        }
        proof {
            assert(entries@ =~= self@);
        }
        StringMap { entries }
    }
}


// ------------------------- shown status -------------------------

/// A duration in milliseconds shown with two decimals of seconds.
pub open spec fn spec_secs2(ms: u64) -> Seq<char> {
    let s = ms as nat / 1000;
    let frac = ms as nat % 1000;
    let c = (frac + 5) / 10;
    if c == 100 {
        dec_str((s + 1) as nat) + (".00")@
    } else {
        dec_str(s) + (".")@ + dec2_str(c)
    }
}

/// The status text a request shows: outcome word, status code if an
/// exchange happened, and the wall time if one was measured.
pub open spec fn spec_status_text(r: RequestModel) -> Seq<char> {
    let word = match r.status {
        JobStatus::Finished => (" SUCCESS")@,
        JobStatus::Failed => (" FAIL")@,
        _ => (" PENDING")@,
    };
    let base = match r.response {
        Some(RespVariantModel::Success(resp)) => word + (" - ")@ + dec_str(resp.status_code as nat),
        _ => word,
    };
    match r.job_duration {
        Some(ms) => base + (" - in ")@ + spec_secs2(ms) + (" sec")@,
        None => base,
    }
}

impl Request {
    /// The status text shown in the table for this request.
    pub fn get_status_text(&self) -> (r: String)
        ensures
            r@ == spec_status_text(self@),
    {
        let mut text = match self.status {
            JobStatus::Finished => String::from_str(" SUCCESS"),
            JobStatus::Failed => String::from_str(" FAIL"),
            _ => String::from_str(" PENDING"),
        };
        match &self.response {
            Some(ResponseVariant::Success(resp)) => {
                text.append(" - ");
                let code = crate::utils::u64_to_string(resp.status_code as u64);
                text.append(code.as_str());
            }
            _ => {
            }
        }
        match self.job_duration {
            Some(ms) => {
                text.append(" - in ");
                let s = ms / 1000;
                let frac = ms % 1000;
                let c = (frac + 5) / 10;
                if c == 100 {
                    let w = crate::utils::u64_to_string(s + 1);
                    text.append(w.as_str());
                    text.append(".00");
                } else {
                    let w = crate::utils::u64_to_string(s);
                    text.append(w.as_str());
                    text.append(".");
                    if c < 10 {
                        text.append("0");
                        let d = crate::utils::u64_to_string(c);
                        text.append(d.as_str());
                        proof {
                            reveal_strlit("0");
                            assert(("0")@ =~= seq!['0']);
                        }
                    } else {
                        let d = crate::utils::u64_to_string(c);
                        text.append(d.as_str());
                    }
                }
                text.append(" sec");
                proof {
                    assert(text@ =~= spec_status_text(self@));
                }
            }
            None => {
            }
        }
        text
    }
}

// ------------------------- reading the builder's answer -------------------------

/// Reads the builder's answer back; nothing when the document does not have
/// the expected shape or its URL does not parse.
pub fn decode_request_builder_dto(v: &JsonValue) -> (r: Option<RequestBuilderDTO>)
    ensures
        match r {
            Some(d) => sd_builder_dto(v@) == Some(d@),
            None => sd_builder_dto(v@) is None,
        },
{
    match v {
        JsonValue::Obj(fields) => {
            let uri: String = match crate::config::jget(fields, "uri") {
                Some(JsonValue::Str(s)) => {
                    match crate::urls::normalize_url(s.as_str()) {
                        Some(t) => t,
                        None => {
                            return None;
                        }
                    }
                }
                _ => {
                    return None;
                }
            };
            let http_method: HttpMethod = match crate::config::jget(fields, "http_method") {
                Some(x) => {
                    match crate::config::decode_method_value(x) {
                        Some(m) => m,
                        None => {
                            return None;
                        }
                    }
                }
                None => {
                    return None;
                }
            };
            let headers: Option<HeadersMap> = match crate::config::jget(fields, "headers") {
                None => None,
                Some(JsonValue::Null) => None,
                Some(x) => {
                    match crate::config::decode_headers_value(x) {
                        Some(h) => Some(h),
                        None => {
                            return None;
                        }
                    }
                }
            };
            let body: Option<JsonValue> = match crate::config::jget(fields, "body") {
                None => None,
                Some(JsonValue::Null) => None,
                Some(x) => Some(x.clone()),
            };
            Some(RequestBuilderDTO { uri, http_method, headers, body })
        }
        _ => None,
    }
}

impl Request {
    /// Applies the builder's answer to this request; a malformed answer
    /// leaves the request unchanged and says so.
    pub fn apply_builder_output(&mut self, output: &JsonValue) -> (r: Result<(), AppError>)
        ensures
            match sd_builder_dto(output@) {
                Some(b) => r is Ok && final(self)@ == (RequestModel {
                    uri: b.uri,
                    http_method: b.http_method,
                    headers: b.headers,
                    body: b.body,
                    ..old(self)@
                }),
                None => (r matches Err(e) && e matches AppError::ValidationError(m) && m@ == (
                "Failed to deserialize request ")@ + old(self)@.uri + (
                " after applying builder command")@) && final(self)@ == old(self)@,
            },
    {
        match decode_request_builder_dto(output) {
            Some(dto) => {
                self.apply_request_builder_dto(dto);
                Ok(())
            }
            None => {
                let mut m = String::from_str("Failed to deserialize request ");
                m.append(self.uri.as_str());
                m.append(" after applying builder command");
                Err(AppError::ValidationError(m))
            }
        }
    }
}

/// The exact text handed to the request builder for a request.
pub fn serialize_request_payload(r: &Request) -> (t: String)
    ensures
        t@ == crate::json::spec_render(
            se_builder_dto(
                BuilderDtoModel {
                    uri: r@.uri,
                    http_method: r@.http_method,
                    headers: r@.headers,
                    body: r@.body,
                },
            ),
            0,
        ),
{
    let dto = builder_dto_of_request(r);
    let v = builder_payload_json(&dto);
    crate::json::json_to_pretty_string(&v)
}

} // verus!
