use vstd::prelude::*;
use crate::types::{AppError, HeaderValue, HeadersMap, HttpMethod, PathVariable, PathVariableValue,
    VariableGenerator, VariablesMap, StringMap};
use crate::json::{JsonData, JsonValue, fmodels, jmodels};

verus! {

/// The number of jobs run at once when the configuration names none.
pub fn default_concurrent_jobs() -> (r: usize)
    ensures
        r == 20,
{
    20
}

/// A domain given as a URL together with headers sent to it.
#[derive(Debug, PartialEq)]
pub struct UrlWithOptionalHeaders {
    pub domain: String,
    pub headers: Option<HeadersMap>,
}

/// A domain entry: a bare URL, or a URL with its own headers.
#[derive(Debug, PartialEq)]
pub enum DomainVariant {
    Url(String),
    UrlWithHeaders(UrlWithOptionalHeaders),
}

/// One endpoint template with everything that shapes its requests.
#[derive(Debug, PartialEq)]
pub struct EndpointConfiguration {
    pub endpoint: String,
    pub variables: Option<VariablesMap>,
    pub http_method: Option<HttpMethod>,
    pub headers: Option<HeadersMap>,
    pub body: Option<JsonValue>,
    pub response_processor: Option<Vec<String>>,
    pub request_builder: Option<Vec<String>>,
}

/// The whole configuration: the domains compared, the endpoint templates,
/// shared variables and the bound on jobs in flight.
#[derive(Debug, PartialEq)]
pub struct Configuration {
    pub domains: Vec<DomainVariant>,
    pub endpoints: Vec<EndpointConfiguration>,
    pub variables: Option<VariablesMap>,
    pub concurrent_jobs: usize,
}

// ------------------------- mathematical models -------------------------

pub ghost enum HvModel {
    Str(Seq<char>),
    U64(u64),
}

pub ghost enum PvvModel {
    Generator(VariableGenerator),
    Int(usize),
    Str(Seq<char>),
}

pub ghost enum VarModel {
    Single(PvvModel),
    Multiple(Seq<PvvModel>),
}

pub type HeadersModel = Seq<(Seq<char>, HvModel)>;

pub type VarsModel = Seq<(Seq<char>, VarModel)>;

pub ghost enum DomainModel {
    Url(Seq<char>),
    UrlWithHeaders(Seq<char>, Option<HeadersModel>),
}

pub ghost struct EndpointModel {
    pub endpoint: Seq<char>,
    pub variables: Option<VarsModel>,
    pub http_method: Option<HttpMethod>,
    pub headers: Option<HeadersModel>,
    pub body: Option<JsonData>,
    pub response_processor: Option<Seq<Seq<char>>>,
    pub request_builder: Option<Seq<Seq<char>>>,
}

pub ghost struct ConfigModel {
    pub domains: Seq<DomainModel>,
    pub endpoints: Seq<EndpointModel>,
    pub variables: Option<VarsModel>,
    pub concurrent_jobs: usize,
}

impl View for HeaderValue {
    type V = HvModel;

    open spec fn view(&self) -> HvModel {
        match self {
            HeaderValue::String(s) => HvModel::Str(s@),
            HeaderValue::U64(n) => HvModel::U64(*n),
        }
    }
}

impl View for PathVariableValue {
    type V = PvvModel;

    open spec fn view(&self) -> PvvModel {
        match self {
            PathVariableValue::Generator(g) => PvvModel::Generator(*g),
            PathVariableValue::Int(n) => PvvModel::Int(*n),
            PathVariableValue::String(s) => PvvModel::Str(s@),
        }
    }
}

impl View for PathVariable {
    type V = VarModel;

    open spec fn view(&self) -> VarModel {
        match self {
            PathVariable::SingleValue(v) => VarModel::Single(v@),
            PathVariable::MultipleValues(vs) => VarModel::Multiple(
                Seq::new(vs@.len(), |i: int| if 0 <= i < vs@.len() { vs@[i]@ } else { vs@[i]@ }),
            ),
        }
    }
}

/// The model of a headers map: keys and values as sequences.
pub open spec fn hm_model(m: HeadersMap) -> HeadersModel {
    Seq::new(m@.len(), |i: int| (m@[i].0@, m@[i].1@))
}

/// The model of a variables map.
pub open spec fn vars_model(m: VariablesMap) -> VarsModel {
    Seq::new(m@.len(), |i: int| (m@[i].0@, m@[i].1@))
}

/// The model of a list of command words.
pub open spec fn strs_model(v: Seq<String>) -> Seq<Seq<char>> {
    Seq::new(v.len(), |i: int| v[i]@)
}

impl View for DomainVariant {
    type V = DomainModel;

    open spec fn view(&self) -> DomainModel {
        match self {
            DomainVariant::Url(s) => DomainModel::Url(s@),
            DomainVariant::UrlWithHeaders(u) => DomainModel::UrlWithHeaders(
                u.domain@,
                match u.headers {
                    Some(h) => Some(hm_model(h)),
                    None => None,
                },
            ),
        }
    }
}

impl View for EndpointConfiguration {
    type V = EndpointModel;

    open spec fn view(&self) -> EndpointModel {
        EndpointModel {
            endpoint: self.endpoint@,
            variables: match self.variables {
                Some(v) => Some(vars_model(v)),
                None => None,
            },
            http_method: self.http_method,
            headers: match self.headers {
                Some(h) => Some(hm_model(h)),
                None => None,
            },
            body: match self.body {
                Some(b) => Some(b@),
                None => None,
            },
            response_processor: match self.response_processor {
                Some(p) => Some(strs_model(p@)),
                None => None,
            },
            request_builder: match self.request_builder {
                Some(p) => Some(strs_model(p@)),
                None => None,
            },
        }
    }
}

impl View for Configuration {
    type V = ConfigModel;

    open spec fn view(&self) -> ConfigModel {
        ConfigModel {
            domains: Seq::new(self.domains@.len(), |i: int| self.domains@[i]@),
            endpoints: Seq::new(self.endpoints@.len(), |i: int| self.endpoints@[i]@),
            variables: match self.variables {
                Some(v) => Some(vars_model(v)),
                None => None,
            },
            concurrent_jobs: self.concurrent_jobs,
        }
    }
}

// ------------------------- reading a JSON document -------------------------

/// The value under `key` among an object's members, first occurrence first.
pub open spec fn jlookup(fields: Seq<(Seq<char>, JsonData)>, key: Seq<char>) -> Option<JsonData>
    decreases fields.len(),
{
    if fields.len() == 0 {
        None
    } else if fields[0].0 == key {
        Some(fields[0].1)
    } else {
        jlookup(fields.skip(1), key)
    }
}

/// A header value is text or an unsigned number.
pub open spec fn sd_header_value(v: JsonData) -> Option<HvModel> {
    match v {
        JsonData::Str(s) => Some(HvModel::Str(s)),
        JsonData::UInt(n) => Some(HvModel::U64(n)),
        _ => None,
    }
}

pub open spec fn sd_headers_entries(fields: Seq<(Seq<char>, JsonData)>) -> Option<HeadersModel> {
    if forall|i: int| 0 <= i < fields.len() ==> sd_header_value(#[trigger] fields[i].1) is Some {
        Some(
            Seq::new(
                fields.len(),
                |i: int|
                    (
                        fields[i].0,
                        if 0 <= i < fields.len() {
                            sd_header_value(fields[i].1)->Some_0
                        } else {
                            HvModel::U64(0)
                        },
                    ),
            ),
        )
    } else {
        None
    }
}

/// A headers map is an object of header values.
pub open spec fn sd_headers(v: JsonData) -> Option<HeadersModel> {
    match v {
        JsonData::Obj(fields) => sd_headers_entries(fields),
        _ => None,
    }
}

/// A variable leaf: the text `UUID` names the generator, other text stands
/// for itself, an unsigned number for an integer.
pub open spec fn sd_var_value(v: JsonData) -> Option<PvvModel> {
    match v {
        JsonData::Str(s) => if s == ("UUID")@ {
            Some(PvvModel::Generator(VariableGenerator::UUID))
        } else {
            Some(PvvModel::Str(s))
        },
        JsonData::UInt(n) => if n <= usize::MAX {
            Some(PvvModel::Int(n as usize))
        } else {
            None
        },
        _ => None,
    }
}

/// A variable: a list of leaves, or one leaf.
pub open spec fn sd_var(v: JsonData) -> Option<VarModel> {
    match v {
        JsonData::Arr(items) => if forall|i: int|
            0 <= i < items.len() ==> sd_var_value(#[trigger] items[i]) is Some {
            Some(
                VarModel::Multiple(
                    Seq::new(
                        items.len(),
                        |i: int|
                            if 0 <= i < items.len() {
                                sd_var_value(items[i])->Some_0
                            } else {
                                PvvModel::Int(0)
                            },
                    ),
                ),
            )
        } else {
            None
        },
        _ => match sd_var_value(v) {
            Some(leaf) => Some(VarModel::Single(leaf)),
            None => None,
        },
    }
}

pub open spec fn sd_vars_entries(fields: Seq<(Seq<char>, JsonData)>) -> Option<VarsModel> {
    if forall|i: int| 0 <= i < fields.len() ==> sd_var(#[trigger] fields[i].1) is Some {
        Some(
            Seq::new(
                fields.len(),
                |i: int|
                    (
                        fields[i].0,
                        if 0 <= i < fields.len() {
                            sd_var(fields[i].1)->Some_0
                        } else {
                            VarModel::Single(PvvModel::Int(0))
                        },
                    ),
            ),
        )
    } else {
        None
    }
}

pub open spec fn sd_vars(v: JsonData) -> Option<VarsModel> {
    match v {
        JsonData::Obj(fields) => sd_vars_entries(fields),
        _ => None,
    }
}

/// An HTTP method is one of five names.
pub open spec fn sd_method(v: JsonData) -> Option<HttpMethod> {
    match v {
        JsonData::Str(s) => if s == ("GET")@ {
            Some(HttpMethod::GET)
        } else if s == ("POST")@ {
            Some(HttpMethod::POST)
        } else if s == ("PATCH")@ {
            Some(HttpMethod::PATCH)
        } else if s == ("PUT")@ {
            Some(HttpMethod::PUT)
        } else if s == ("DELETE")@ {
            Some(HttpMethod::DELETE)
        } else {
            None
        },
        _ => None,
    }
}

/// A command is a list of words.
pub open spec fn sd_string_arr(v: JsonData) -> Option<Seq<Seq<char>>> {
    match v {
        JsonData::Arr(items) => if forall|i: int|
            0 <= i < items.len() ==> (#[trigger] items[i]) is Str {
            Some(
                Seq::new(
                    items.len(),
                    |i: int|
                        if 0 <= i < items.len() {
                            items[i]->Str_0
                        } else {
                            Seq::empty()
                        },
                ),
            )
        } else {
            None
        },
        _ => None,
    }
}

/// A domain entry: a URL string, or an object with `domain` and optional
/// `headers`.
pub open spec fn sd_domain(v: JsonData) -> Option<DomainModel> {
    match v {
        JsonData::Str(s) => Some(DomainModel::Url(s)),
        JsonData::Obj(fields) => match jlookup(fields, ("domain")@) {
            Some(JsonData::Str(d)) => match jlookup(fields, ("headers")@) {
                None => Some(DomainModel::UrlWithHeaders(d, None)),
                Some(JsonData::Null) => Some(DomainModel::UrlWithHeaders(d, None)),
                Some(h) => match sd_headers(h) {
                    Some(hm) => Some(DomainModel::UrlWithHeaders(d, Some(hm))),
                    None => None,
                },
            },
            _ => None,
        },
        _ => None,
    }
}

/// An absent or null member reads as nothing; anything else must decode.
pub open spec fn sd_opt_headers(fv: Option<JsonData>) -> Option<Option<HeadersModel>> {
    match fv {
        None => Some(None),
        Some(JsonData::Null) => Some(None),
        Some(x) => match sd_headers(x) {
            Some(h) => Some(Some(h)),
            None => None,
        },
    }
}

pub open spec fn sd_opt_vars(fv: Option<JsonData>) -> Option<Option<VarsModel>> {
    match fv {
        None => Some(None),
        Some(JsonData::Null) => Some(None),
        Some(x) => match sd_vars(x) {
            Some(h) => Some(Some(h)),
            None => None,
        },
    }
}

pub open spec fn sd_opt_method(fv: Option<JsonData>) -> Option<Option<HttpMethod>> {
    match fv {
        None => Some(None),
        Some(JsonData::Null) => Some(None),
        Some(x) => match sd_method(x) {
            Some(h) => Some(Some(h)),
            None => None,
        },
    }
}

pub open spec fn sd_opt_string_arr(fv: Option<JsonData>) -> Option<Option<Seq<Seq<char>>>> {
    match fv {
        None => Some(None),
        Some(JsonData::Null) => Some(None),
        Some(x) => match sd_string_arr(x) {
            Some(h) => Some(Some(h)),
            None => None,
        },
    }
}

/// An endpoint object: `endpoint` is required text; the rest is optional.
pub open spec fn sd_endpoint(v: JsonData) -> Option<EndpointModel> {
    match v {
        JsonData::Obj(fields) => match jlookup(fields, ("endpoint")@) {
            Some(JsonData::Str(e)) => {
                let vars = sd_opt_vars(jlookup(fields, ("variables")@));
                let method = sd_opt_method(jlookup(fields, ("http_method")@));
                let headers = sd_opt_headers(jlookup(fields, ("headers")@));
                let body = match jlookup(fields, ("body")@) {
                    None => Some(None),
                    Some(JsonData::Null) => Some(None),
                    Some(x) => Some(Some(x)),
                };
                let processor = sd_opt_string_arr(jlookup(fields, ("response_processor")@));
                let builder = sd_opt_string_arr(jlookup(fields, ("request_builder")@));
                if vars is Some && method is Some && headers is Some && body is Some && processor
                    is Some && builder is Some {
                    Some(
                        EndpointModel {
                            endpoint: e,
                            variables: vars->Some_0,
                            http_method: method->Some_0,
                            headers: headers->Some_0,
                            body: body->Some_0,
                            response_processor: processor->Some_0,
                            request_builder: builder->Some_0,
                        },
                    )
                } else {
                    None
                }
            },
            _ => None,
        },
        _ => None,
    }
}

pub open spec fn sd_domains(items: Seq<JsonData>) -> Option<Seq<DomainModel>> {
    if forall|i: int| 0 <= i < items.len() ==> sd_domain(#[trigger] items[i]) is Some {
        Some(
            Seq::new(
                items.len(),
                |i: int|
                    if 0 <= i < items.len() {
                        sd_domain(items[i])->Some_0
                    } else {
                        DomainModel::Url(Seq::empty())
                    },
            ),
        )
    } else {
        None
    }
}

pub open spec fn sd_endpoints(items: Seq<JsonData>) -> Option<Seq<EndpointModel>> {
    if forall|i: int| 0 <= i < items.len() ==> sd_endpoint(#[trigger] items[i]) is Some {
        Some(
            Seq::new(
                items.len(),
                |i: int|
                    if 0 <= i < items.len() {
                        sd_endpoint(items[i])->Some_0
                    } else {
                        sd_endpoint(items[i])->Some_0
                    },
            ),
        )
    } else {
        None
    }
}

/// What a configuration document means: `domains` and `endpoints` are
/// required lists, `variables` is optional, `concurrent_jobs` defaults to 20.
pub open spec fn sd_config(v: JsonData) -> Option<ConfigModel> {
    match v {
        JsonData::Obj(fields) => {
            let ds = match jlookup(fields, ("domains")@) {
                Some(JsonData::Arr(items)) => sd_domains(items),
                _ => None,
            };
            let es = match jlookup(fields, ("endpoints")@) {
                Some(JsonData::Arr(items)) => sd_endpoints(items),
                _ => None,
            };
            let vars = sd_opt_vars(jlookup(fields, ("variables")@));
            let cj = match jlookup(fields, ("concurrent_jobs")@) {
                None => Some(20usize),
                Some(JsonData::UInt(n)) => if n <= usize::MAX {
                    Some(n as usize)
                } else {
                    None
                },
                Some(_) => None,
            };
            if ds is Some && es is Some && vars is Some && cj is Some {
                Some(
                    ConfigModel {
                        domains: ds->Some_0,
                        endpoints: es->Some_0,
                        variables: vars->Some_0,
                        concurrent_jobs: cj->Some_0,
                    },
                )
            } else {
                None
            }
        },
        _ => None,
    }
}

// ------------------------- writing a JSON document -------------------------

pub open spec fn se_header_value(h: HvModel) -> JsonData {
    match h {
        HvModel::Str(s) => JsonData::Str(s),
        HvModel::U64(n) => JsonData::UInt(n),
    }
}

pub open spec fn se_headers(hm: HeadersModel) -> JsonData {
    JsonData::Obj(
        Seq::new(
            hm.len(),
            |i: int|
                (
                    hm[i].0,
                    if 0 <= i < hm.len() {
                        se_header_value(hm[i].1)
                    } else {
                        JsonData::Null
                    },
                ),
        ),
    )
}

pub open spec fn se_var_value(p: PvvModel) -> JsonData {
    match p {
        PvvModel::Generator(g) => JsonData::Str(("UUID")@),
        PvvModel::Int(n) => JsonData::UInt(n as u64),
        PvvModel::Str(s) => JsonData::Str(s),
    }
}

pub open spec fn se_var(v: VarModel) -> JsonData {
    match v {
        VarModel::Single(p) => se_var_value(p),
        VarModel::Multiple(ps) => JsonData::Arr(
            Seq::new(
                ps.len(),
                |i: int|
                    if 0 <= i < ps.len() {
                        se_var_value(ps[i])
                    } else {
                        JsonData::Null
                    },
            ),
        ),
    }
}

pub open spec fn se_vars(vm: VarsModel) -> JsonData {
    JsonData::Obj(
        Seq::new(
            vm.len(),
            |i: int|
                (
                    vm[i].0,
                    if 0 <= i < vm.len() {
                        se_var(vm[i].1)
                    } else {
                        JsonData::Null
                    },
                ),
        ),
    )
}

pub open spec fn se_method(m: HttpMethod) -> JsonData {
    match m {
        HttpMethod::GET => JsonData::Str(("GET")@),
        HttpMethod::POST => JsonData::Str(("POST")@),
        HttpMethod::PATCH => JsonData::Str(("PATCH")@),
        HttpMethod::PUT => JsonData::Str(("PUT")@),
        HttpMethod::DELETE => JsonData::Str(("DELETE")@),
    }
}

pub open spec fn se_string_arr(ss: Seq<Seq<char>>) -> JsonData {
    JsonData::Arr(Seq::new(ss.len(), |i: int| JsonData::Str(ss[i])))
}

pub open spec fn se_domain(d: DomainModel) -> JsonData {
    match d {
        DomainModel::Url(s) => JsonData::Str(s),
        DomainModel::UrlWithHeaders(s, hs) => JsonData::Obj(
            seq![
                (("domain")@, JsonData::Str(s)),
                (
                    ("headers")@,
                    match hs {
                        None => JsonData::Null,
                        Some(h) => se_headers(h),
                    },
                ),
            ],
        ),
    }
}

pub open spec fn se_endpoint(e: EndpointModel) -> JsonData {
    JsonData::Obj(
        seq![
            (("endpoint")@, JsonData::Str(e.endpoint)),
            (
                ("variables")@,
                match e.variables {
                    None => JsonData::Null,
                    Some(v) => se_vars(v),
                },
            ),
            (
                ("http_method")@,
                match e.http_method {
                    None => JsonData::Null,
                    Some(m) => se_method(m),
                },
            ),
            (
                ("headers")@,
                match e.headers {
                    None => JsonData::Null,
                    Some(h) => se_headers(h),
                },
            ),
            (
                ("body")@,
                match e.body {
                    None => JsonData::Null,
                    Some(b) => b,
                },
            ),
            (
                ("response_processor")@,
                match e.response_processor {
                    None => JsonData::Null,
                    Some(p) => se_string_arr(p),
                },
            ),
            (
                ("request_builder")@,
                match e.request_builder {
                    None => JsonData::Null,
                    Some(p) => se_string_arr(p),
                },
            ),
        ],
    )
}

pub open spec fn se_config(c: ConfigModel) -> JsonData {
    JsonData::Obj(
        seq![
            (
                ("domains")@,
                JsonData::Arr(
                    Seq::new(
                        c.domains.len(),
                        |i: int|
                            if 0 <= i < c.domains.len() {
                                se_domain(c.domains[i])
                            } else {
                                JsonData::Null
                            },
                    ),
                ),
            ),
            (
                ("endpoints")@,
                JsonData::Arr(
                    Seq::new(
                        c.endpoints.len(),
                        |i: int|
                            if 0 <= i < c.endpoints.len() {
                                se_endpoint(c.endpoints[i])
                            } else {
                                JsonData::Null
                            },
                    ),
                ),
            ),
            (
                ("variables")@,
                match c.variables {
                    None => JsonData::Null,
                    Some(v) => se_vars(v),
                },
            ),
            (("concurrent_jobs")@, JsonData::UInt(c.concurrent_jobs as u64)),
        ],
    )
}


// ------------------------- the round trip -------------------------

/// A variable leaf in canonical form: plain text never spells the
/// generator's name.
pub open spec fn canon_pvv(p: PvvModel) -> bool {
    match p {
        PvvModel::Str(s) => s != ("UUID")@,
        _ => true,
    }
}

pub open spec fn canon_var(v: VarModel) -> bool {
    match v {
        VarModel::Single(p) => canon_pvv(p),
        VarModel::Multiple(ps) => forall|i: int| 0 <= i < ps.len() ==> canon_pvv(#[trigger] ps[i]),
    }
}

pub open spec fn canon_vars(vm: VarsModel) -> bool {
    forall|i: int| 0 <= i < vm.len() ==> canon_var(#[trigger] vm[i].1)
}

/// An endpoint in canonical form: a held body is never the bare JSON null,
/// and its variables are canonical.
pub open spec fn canon_endpoint(e: EndpointModel) -> bool {
    &&& match e.variables {
        Some(v) => canon_vars(v),
        None => true,
    }
    &&& e.body != Some(JsonData::Null)
}

pub open spec fn canon_config(c: ConfigModel) -> bool {
    &&& forall|i: int| 0 <= i < c.endpoints.len() ==> canon_endpoint(#[trigger] c.endpoints[i])
    &&& match c.variables {
        Some(v) => canon_vars(v),
        None => true,
    }
}

/// Looking up the `i`-th key of an object finds the `i`-th value, when no
/// earlier member bears the same key.
pub proof fn lemma_jlookup_at(fields: Seq<(Seq<char>, JsonData)>, i: int)
    requires
        0 <= i < fields.len(),
        forall|j: int| 0 <= j < i ==> (#[trigger] fields[j].0) != fields[i].0,
    ensures
        jlookup(fields, fields[i].0) == Some(fields[i].1),
    decreases i,
{
    if i == 0 {
    } else {
        assert(fields[0].0 != fields[i].0);
        lemma_jlookup_at(fields.skip(1), i - 1);
        assert(fields.skip(1)[i - 1] == fields[i]);
        assert forall|j: int| 0 <= j < i - 1 implies (#[trigger] fields.skip(1)[j].0)
            != fields.skip(1)[i - 1].0 by {
            assert(fields.skip(1)[j] == fields[j + 1]);
        }
    }
}

pub proof fn lemma_rt_header_value(h: HvModel)
    ensures
        sd_header_value(se_header_value(h)) == Some(h),
{
}

pub proof fn lemma_rt_headers(hm: HeadersModel)
    ensures
        sd_headers(se_headers(hm)) == Some(hm),
{
    let f = se_headers(hm)->Obj_0;
    assert forall|i: int| 0 <= i < f.len() implies sd_header_value(#[trigger] f[i].1) is Some by {
        lemma_rt_header_value(hm[i].1);
    }
    let r = sd_headers_entries(f)->Some_0;
    assert forall|i: int| 0 <= i < hm.len() implies r[i] == hm[i] by {
        lemma_rt_header_value(hm[i].1);
    }
    assert(r =~= hm);
}

pub proof fn lemma_rt_var_value(p: PvvModel)
    requires
        canon_pvv(p),
    ensures
        sd_var_value(se_var_value(p)) == Some(p),
{
    match p {
        PvvModel::Generator(g) => {
        }
        PvvModel::Int(n) => {
            assert(n as u64 <= usize::MAX);
            assert((n as u64) as usize == n);
        }
        PvvModel::Str(s) => {
        }
    }
}

pub proof fn lemma_rt_var(v: VarModel)
    requires
        canon_var(v),
    ensures
        sd_var(se_var(v)) == Some(v),
{
    match v {
        VarModel::Single(p) => {
            lemma_rt_var_value(p);
            assert(!(se_var_value(p) is Arr));
        }
        VarModel::Multiple(ps) => {
            let items = se_var(v)->Arr_0;
            assert forall|i: int| 0 <= i < items.len() implies sd_var_value(
                #[trigger] items[i],
            ) is Some by {
                lemma_rt_var_value(ps[i]);
            }
            let r = sd_var(se_var(v))->Some_0->Multiple_0;
            assert forall|i: int| 0 <= i < ps.len() implies r[i] == ps[i] by {
                lemma_rt_var_value(ps[i]);
            }
            assert(r =~= ps);
        }
    }
}

pub proof fn lemma_rt_vars(vm: VarsModel)
    requires
        canon_vars(vm),
    ensures
        sd_vars(se_vars(vm)) == Some(vm),
{
    let f = se_vars(vm)->Obj_0;
    assert forall|i: int| 0 <= i < f.len() implies sd_var(#[trigger] f[i].1) is Some by {
        lemma_rt_var(vm[i].1);
    }
    let r = sd_vars_entries(f)->Some_0;
    assert forall|i: int| 0 <= i < vm.len() implies r[i] == vm[i] by {
        lemma_rt_var(vm[i].1);
    }
    assert(r =~= vm);
}

pub proof fn lemma_rt_method(m: HttpMethod)
    ensures
        sd_method(se_method(m)) == Some(m),
{
    reveal_strlit("GET");
    reveal_strlit("POST");
    reveal_strlit("PATCH");
    reveal_strlit("PUT");
    reveal_strlit("DELETE");
    assert(("GET")@.len() == 3);
    assert(("POST")@.len() == 4);
    assert(("PATCH")@.len() == 5);
    assert(("PUT")@.len() == 3);
    assert(("DELETE")@.len() == 6);
    assert(("PUT")@[0] == 'P');
    assert(("GET")@[0] == 'G');
}

pub proof fn lemma_rt_string_arr(ss: Seq<Seq<char>>)
    ensures
        sd_string_arr(se_string_arr(ss)) == Some(ss),
{
    let items = se_string_arr(ss)->Arr_0;
    assert(forall|i: int| 0 <= i < items.len() ==> (#[trigger] items[i]) is Str);
    let r = sd_string_arr(se_string_arr(ss))->Some_0;
    assert(r =~= ss);
}

pub proof fn lemma_rt_domain(d: DomainModel)
    ensures
        sd_domain(se_domain(d)) == Some(d),
{
    match d {
        DomainModel::Url(s) => {
        }
        DomainModel::UrlWithHeaders(s, hs) => {
            reveal_strlit("domain");
            reveal_strlit("headers");
            let f = se_domain(d)->Obj_0;
            assert(f[0].0 == ("domain")@);
            assert(f[1].0 == ("headers")@);
            assert(("domain")@.len() == 6);
            assert(("headers")@.len() == 7);
            lemma_jlookup_at(f, 0);
            lemma_jlookup_at(f, 1);
            match hs {
                None => {
                }
                Some(h) => {
                    lemma_rt_headers(h);
                }
            }
        }
    }
}

pub proof fn lemma_endpoint_keys(e: EndpointModel)
    ensures
        jlookup(se_endpoint(e)->Obj_0, ("endpoint")@) == Some(JsonData::Str(e.endpoint)),
        jlookup(se_endpoint(e)->Obj_0, ("variables")@) == Some(se_endpoint(e)->Obj_0[1].1),
        jlookup(se_endpoint(e)->Obj_0, ("http_method")@) == Some(se_endpoint(e)->Obj_0[2].1),
        jlookup(se_endpoint(e)->Obj_0, ("headers")@) == Some(se_endpoint(e)->Obj_0[3].1),
        jlookup(se_endpoint(e)->Obj_0, ("body")@) == Some(se_endpoint(e)->Obj_0[4].1),
        jlookup(se_endpoint(e)->Obj_0, ("response_processor")@) == Some(se_endpoint(e)->Obj_0[5].1),
        jlookup(se_endpoint(e)->Obj_0, ("request_builder")@) == Some(se_endpoint(e)->Obj_0[6].1),
{
    reveal_strlit("endpoint");
    reveal_strlit("variables");
    reveal_strlit("http_method");
    reveal_strlit("headers");
    reveal_strlit("body");
    reveal_strlit("response_processor");
    reveal_strlit("request_builder");
    let f = se_endpoint(e)->Obj_0;
    assert(("endpoint")@.len() == 8);
    assert(("variables")@.len() == 9);
    assert(("http_method")@.len() == 11);
    assert(("headers")@.len() == 7);
    assert(("body")@.len() == 4);
    assert(("response_processor")@.len() == 18);
    assert(("request_builder")@.len() == 15);
    lemma_jlookup_at(f, 0);
    lemma_jlookup_at(f, 1);
    lemma_jlookup_at(f, 2);
    lemma_jlookup_at(f, 3);
    lemma_jlookup_at(f, 4);
    lemma_jlookup_at(f, 5);
    lemma_jlookup_at(f, 6);
}

pub proof fn lemma_rt_endpoint(e: EndpointModel)
    requires
        canon_endpoint(e),
    ensures
        sd_endpoint(se_endpoint(e)) == Some(e),
{
    lemma_endpoint_keys(e);
    match e.variables {
        Some(v) => {
            lemma_rt_vars(v);
        }
        None => {
        }
    }
    match e.http_method {
        Some(m) => {
            lemma_rt_method(m);
        }
        None => {
        }
    }
    match e.headers {
        Some(h) => {
            lemma_rt_headers(h);
        }
        None => {
        }
    }
    match e.response_processor {
        Some(p) => {
            lemma_rt_string_arr(p);
            assert(!(se_string_arr(p) is Null));
        }
        None => {
        }
    }
    match e.request_builder {
        Some(p) => {
            lemma_rt_string_arr(p);
            assert(!(se_string_arr(p) is Null));
        }
        None => {
        }
    }
}

/// What a written-out configuration reads back as: itself, member for
/// member, as long as it is in canonical form.
pub proof fn lemma_rt_config(c: ConfigModel)
    requires
        canon_config(c),
    ensures
        sd_config(se_config(c)) == Some(c),
{
    reveal_strlit("domains");
    reveal_strlit("endpoints");
    reveal_strlit("variables");
    reveal_strlit("concurrent_jobs");
    let f = se_config(c)->Obj_0;
    assert(("domains")@.len() == 7);
    assert(("endpoints")@.len() == 9);
    assert(("variables")@.len() == 9);
    assert(("concurrent_jobs")@.len() == 15);
    assert(("endpoints")@[0] == 'e');
    assert(("variables")@[0] == 'v');
    lemma_jlookup_at(f, 0);
    lemma_jlookup_at(f, 1);
    lemma_jlookup_at(f, 2);
    lemma_jlookup_at(f, 3);
    let ds = f[0].1->Arr_0;
    assert forall|i: int| 0 <= i < ds.len() implies sd_domain(#[trigger] ds[i]) is Some by {
        lemma_rt_domain(c.domains[i]);
    }
    let rd = sd_domains(ds)->Some_0;
    assert forall|i: int| 0 <= i < c.domains.len() implies rd[i] == c.domains[i] by {
        lemma_rt_domain(c.domains[i]);
    }
    assert(rd =~= c.domains);
    let es = f[1].1->Arr_0;
    assert forall|i: int| 0 <= i < es.len() implies sd_endpoint(#[trigger] es[i]) is Some by {
        lemma_rt_endpoint(c.endpoints[i]);
    }
    let re = sd_endpoints(es)->Some_0;
    assert forall|i: int| 0 <= i < c.endpoints.len() implies re[i] == c.endpoints[i] by {
        lemma_rt_endpoint(c.endpoints[i]);
    }
    assert(re =~= c.endpoints);
    match c.variables {
        Some(v) => {
            lemma_rt_vars(v);
            assert(!(se_vars(v) is Null));
        }
        None => {
        }
    }
    assert(c.concurrent_jobs as u64 <= usize::MAX);
    assert((c.concurrent_jobs as u64) as usize == c.concurrent_jobs);
}

/// Everything a configuration document decodes to is canonical.
pub proof fn lemma_decode_canonical(v: JsonData)
    requires
        sd_config(v) is Some,
    ensures
        canon_config(sd_config(v)->Some_0),
{
    let c = sd_config(v)->Some_0;
    let fields = v->Obj_0;
    assert forall|i: int| 0 <= i < c.endpoints.len() implies canon_endpoint(
        #[trigger] c.endpoints[i],
    ) by {
        let items = jlookup(fields, ("endpoints")@)->Some_0->Arr_0;
        lemma_sd_endpoint_canonical(items[i]);
    }
    match jlookup(fields, ("variables")@) {
        None => {
        }
        Some(JsonData::Null) => {
        }
        Some(x) => {
            lemma_sd_vars_canonical(x);
        }
    }
}

pub proof fn lemma_sd_vars_canonical(v: JsonData)
    requires
        sd_vars(v) is Some,
    ensures
        canon_vars(sd_vars(v)->Some_0),
{
    let vm = sd_vars(v)->Some_0;
    let fields = v->Obj_0;
    assert forall|i: int| 0 <= i < vm.len() implies canon_var(#[trigger] vm[i].1) by {
        lemma_sd_var_canonical(fields[i].1);
    }
}

pub proof fn lemma_sd_var_canonical(v: JsonData)
    requires
        sd_var(v) is Some,
    ensures
        canon_var(sd_var(v)->Some_0),
{
    match v {
        JsonData::Arr(items) => {
            let ps = sd_var(v)->Some_0->Multiple_0;
            assert forall|i: int| 0 <= i < ps.len() implies canon_pvv(#[trigger] ps[i]) by {
                assert(sd_var_value(items[i]) is Some);
            }
        }
        _ => {
        }
    }
}

pub proof fn lemma_sd_endpoint_canonical(v: JsonData)
    requires
        sd_endpoint(v) is Some,
    ensures
        canon_endpoint(sd_endpoint(v)->Some_0),
{
    let e = sd_endpoint(v)->Some_0;
    let fields = v->Obj_0;
    match jlookup(fields, ("variables")@) {
        None => {
        }
        Some(JsonData::Null) => {
        }
        Some(x) => {
            lemma_sd_vars_canonical(x);
        }
    }
}

/// Reading a configuration, writing it out and reading it again gives the
/// same configuration: the decoded form is a fixed point.
pub proof fn lemma_configuration_round_trip(v: JsonData)
    requires
        sd_config(v) is Some,
    ensures
        sd_config(se_config(sd_config(v)->Some_0)) == sd_config(v),
{
    lemma_decode_canonical(v);
    lemma_rt_config(sd_config(v)->Some_0);
}


// ------------------------- reading, in executable form -------------------------

/// The member of `fields` named `key`, first occurrence first.
pub(crate) fn jget<'a>(fields: &'a Vec<(String, JsonValue)>, key: &str) -> (r: Option<&'a JsonValue>)
    ensures
        match r {
            Some(x) => jlookup(fmodels(fields@), key@) == Some(x@),
            None => jlookup(fmodels(fields@), key@) is None,
        },
{
    let n = fields.len();
    let mut i: usize = 0;
    while i < n
        invariant
            n == fields@.len(),
            0 <= i <= n,
            forall|j: int| 0 <= j < i ==> fmodels(fields@)[j].0 != key@,
        decreases n - i,
    {
        if crate::types::str_eq(&fields[i].0, key) {
            proof {
                lemma_jlookup_at(fmodels(fields@), i as int);
            }
            return Some(&fields[i].1);
        }
        i = i + 1;
    }
    proof {
        lemma_jlookup_none(fmodels(fields@), key@);
    }
    None
}

pub proof fn lemma_jlookup_none(fields: Seq<(Seq<char>, JsonData)>, key: Seq<char>)
    requires
        forall|j: int| 0 <= j < fields.len() ==> (#[trigger] fields[j].0) != key,
    ensures
        jlookup(fields, key) is None,
    decreases fields.len(),
{
    if fields.len() > 0 {
        lemma_jlookup_none(fields.skip(1), key);
        assert forall|j: int| 0 <= j < fields.skip(1).len() implies (#[trigger] fields.skip(
            1,
        )[j].0) != key by {
            assert(fields.skip(1)[j] == fields[j + 1]);
        }
    }
}

pub(crate) fn decode_header_value(v: &JsonValue) -> (r: Option<HeaderValue>)
    ensures
        match r {
            Some(h) => sd_header_value(v@) == Some(h@),
            None => sd_header_value(v@) is None,
        },
{
    match v {
        JsonValue::Str(s) => Some(HeaderValue::String(s.clone())),
        JsonValue::UInt(n) => Some(HeaderValue::U64(*n)),
        _ => None,
    }
}

pub(crate) fn decode_headers_value(v: &JsonValue) -> (r: Option<HeadersMap>)
    ensures
        match r {
            Some(m) => sd_headers(v@) == Some(hm_model(m)),
            None => sd_headers(v@) is None,
        },
{
    match v {
        JsonValue::Obj(fields) => {
            let ghost fm = fmodels(fields@);
            let mut entries: Vec<(String, HeaderValue)> = Vec::new();
            let n = fields.len();
            let mut i: usize = 0;
            while i < n
                invariant
                    n == fields@.len(),
                    fm == fmodels(fields@),
                    v@ == JsonData::Obj(fm),
                    0 <= i <= n,
                    entries@.len() == i,
                    forall|j: int|
                        0 <= j < i ==> sd_header_value(#[trigger] fm[j].1) is Some
                            && entries@[j].0@ == fm[j].0 && entries@[j].1@ == sd_header_value(
                            fm[j].1,
                        )->Some_0,
                decreases n - i,
            {
                let pair = &fields[i];
                match decode_header_value(&pair.1) {
                    Some(h) => {
                        entries.push((pair.0.clone(), h));
                    }
                    None => {
                        proof {
                            assert(!(sd_header_value(fm[i as int].1) is Some));
                        }
                        return None;
                    }
                }
                i = i + 1;
            }
            let m = StringMap { entries };
            proof {
                assert(hm_model(m) =~= sd_headers_entries(fm)->Some_0);
            }
            Some(m)
        }
        _ => None,
    }
}

fn decode_var_value(v: &JsonValue) -> (r: Option<PathVariableValue>)
    ensures
        match r {
            Some(p) => sd_var_value(v@) == Some(p@),
            None => sd_var_value(v@) is None,
        },
{
    match v {
        JsonValue::Str(s) => {
            if crate::types::str_eq(s, "UUID") {
                Some(PathVariableValue::Generator(VariableGenerator::UUID))
            } else {
                Some(PathVariableValue::String(s.clone()))
            }
        }
        JsonValue::UInt(n) => {
            if *n <= usize::MAX as u64 {
                Some(PathVariableValue::Int(*n as usize))
            } else {
                None
            }
        }
        _ => None,
    }
}

fn decode_var(v: &JsonValue) -> (r: Option<PathVariable>)
    ensures
        match r {
            Some(p) => sd_var(v@) == Some(p@),
            None => sd_var(v@) is None,
        },
{
    match v {
        JsonValue::Arr(items) => {
            let ghost im = jmodels(items@);
            let mut values: Vec<PathVariableValue> = Vec::new();
            let n = items.len();
            let mut i: usize = 0;
            while i < n
                invariant
                    n == items@.len(),
                    im == jmodels(items@),
                    v@ == JsonData::Arr(im),
                    0 <= i <= n,
                    values@.len() == i,
                    forall|j: int|
                        0 <= j < i ==> sd_var_value(#[trigger] im[j]) is Some && values@[j]@
                            == sd_var_value(im[j])->Some_0,
                decreases n - i,
            {
                match decode_var_value(&items[i]) {
                    Some(p) => {
                        values.push(p);
                    }
                    None => {
                        proof {
                            assert(!(sd_var_value(im[i as int]) is Some));
                        }
                        return None;
                    }
                }
                i = i + 1;
            }
            let p = PathVariable::MultipleValues(values);
            proof {
                assert(p@->Multiple_0 =~= sd_var(v@)->Some_0->Multiple_0);
            }
            Some(p)
        }
        _ => {
            match decode_var_value(v) {
                Some(p) => Some(PathVariable::SingleValue(p)),
                None => None,
            }
        }
    }
}

fn decode_variables(v: &JsonValue) -> (r: Option<VariablesMap>)
    ensures
        match r {
            Some(m) => sd_vars(v@) == Some(vars_model(m)),
            None => sd_vars(v@) is None,
        },
{
    match v {
        JsonValue::Obj(fields) => {
            let ghost fm = fmodels(fields@);
            let mut entries: Vec<(String, PathVariable)> = Vec::new();
            let n = fields.len();
            let mut i: usize = 0;
            while i < n
                invariant
                    n == fields@.len(),
                    fm == fmodels(fields@),
                    v@ == JsonData::Obj(fm),
                    0 <= i <= n,
                    entries@.len() == i,
                    forall|j: int|
                        0 <= j < i ==> sd_var(#[trigger] fm[j].1) is Some && entries@[j].0@
                            == fm[j].0 && entries@[j].1@ == sd_var(fm[j].1)->Some_0,
                decreases n - i,
            {
                let pair = &fields[i];
                match decode_var(&pair.1) {
                    Some(p) => {
                        entries.push((pair.0.clone(), p));
                    }
                    None => {
                        proof {
                            assert(!(sd_var(fm[i as int].1) is Some));
                        }
                        return None;
                    }
                }
                i = i + 1;
            }
            let m = StringMap { entries };
            proof {
                assert(vars_model(m) =~= sd_vars_entries(fm)->Some_0);
            }
            Some(m)
        }
        _ => None,
    }
}

pub(crate) fn decode_method_value(v: &JsonValue) -> (r: Option<HttpMethod>)
    ensures
        match r {
            Some(m) => sd_method(v@) == Some(m),
            None => sd_method(v@) is None,
        },
{
    match v {
        JsonValue::Str(s) => {
            if crate::types::str_eq(s, "GET") {
                Some(HttpMethod::GET)
            } else if crate::types::str_eq(s, "POST") {
                Some(HttpMethod::POST)
            } else if crate::types::str_eq(s, "PATCH") {
                Some(HttpMethod::PATCH)
            } else if crate::types::str_eq(s, "PUT") {
                Some(HttpMethod::PUT)
            } else if crate::types::str_eq(s, "DELETE") {
                Some(HttpMethod::DELETE)
            } else {
                None
            }
        }
        _ => None,
    }
}

fn decode_string_arr(v: &JsonValue) -> (r: Option<Vec<String>>)
    ensures
        match r {
            Some(ss) => sd_string_arr(v@) == Some(strs_model(ss@)),
            None => sd_string_arr(v@) is None,
        },
{
    match v {
        JsonValue::Arr(items) => {
            let ghost im = jmodels(items@);
            let mut out: Vec<String> = Vec::new();
            let n = items.len();
            let mut i: usize = 0;
            while i < n
                invariant
                    n == items@.len(),
                    im == jmodels(items@),
                    v@ == JsonData::Arr(im),
                    0 <= i <= n,
                    out@.len() == i,
                    forall|j: int|
                        0 <= j < i ==> (#[trigger] im[j]) is Str && out@[j]@ == im[j]->Str_0,
                decreases n - i,
            {
                match &items[i] {
                    JsonValue::Str(s) => {
                        out.push(s.clone());
                    }
                    _ => {
                        proof {
                            assert(!(im[i as int] is Str));
                        }
                        return None;
                    }
                }
                i = i + 1;
            }
            proof {
                assert(strs_model(out@) =~= sd_string_arr(v@)->Some_0);
            }
            Some(out)
        }
        _ => None,
    }
}

fn decode_domain(v: &JsonValue) -> (r: Option<DomainVariant>)
    ensures
        match r {
            Some(d) => sd_domain(v@) == Some(d@),
            None => sd_domain(v@) is None,
        },
{
    match v {
        JsonValue::Str(s) => Some(DomainVariant::Url(s.clone())),
        JsonValue::Obj(fields) => {
            match jget(fields, "domain") {
                Some(JsonValue::Str(d)) => {
                    let headers: Option<HeadersMap> = match jget(fields, "headers") {
                        None => None,
                        Some(JsonValue::Null) => None,
                        Some(h) => {
                            match decode_headers_value(h) {
                                Some(hm) => Some(hm),
                                None => {
                                    return None;
                                }
                            }
                        }
                    };
                    Some(
                        DomainVariant::UrlWithHeaders(
                            UrlWithOptionalHeaders { domain: d.clone(), headers },
                        ),
                    )
                }
                _ => None,
            }
        }
        _ => None,
    }
}

fn decode_endpoint(v: &JsonValue) -> (r: Option<EndpointConfiguration>)
    ensures
        match r {
            Some(e) => sd_endpoint(v@) == Some(e@),
            None => sd_endpoint(v@) is None,
        },
{
    match v {
        JsonValue::Obj(fields) => {
            let endpoint: String = match jget(fields, "endpoint") {
                Some(JsonValue::Str(e)) => e.clone(),
                _ => {
                    return None;
                }
            };
            let variables: Option<VariablesMap> = match jget(fields, "variables") {
                None => None,
                Some(JsonValue::Null) => None,
                Some(x) => {
                    match decode_variables(x) {
                        Some(m) => Some(m),
                        None => {
                            return None;
                        }
                    }
                }
            };
            let http_method: Option<HttpMethod> = match jget(fields, "http_method") {
                None => None,
                Some(JsonValue::Null) => None,
                Some(x) => {
                    match decode_method_value(x) {
                        Some(m) => Some(m),
                        None => {
                            return None;
                        }
                    }
                }
            };
            let headers: Option<HeadersMap> = match jget(fields, "headers") {
                None => None,
                Some(JsonValue::Null) => None,
                Some(x) => {
                    match decode_headers_value(x) {
                        Some(m) => Some(m),
                        None => {
                            return None;
                        }
                    }
                }
            };
            let body: Option<JsonValue> = match jget(fields, "body") {
                None => None,
                Some(JsonValue::Null) => None,
                Some(x) => Some(x.clone()),
            };
            let response_processor: Option<Vec<String>> = match jget(fields, "response_processor") {
                None => None,
                Some(JsonValue::Null) => None,
                Some(x) => {
                    match decode_string_arr(x) {
                        Some(m) => Some(m),
                        None => {
                            return None;
                        }
                    }
                }
            };
            let request_builder: Option<Vec<String>> = match jget(fields, "request_builder") {
                None => None,
                Some(JsonValue::Null) => None,
                Some(x) => {
                    match decode_string_arr(x) {
                        Some(m) => Some(m),
                        None => {
                            return None;
                        }
                    }
                }
            };
            Some(
                EndpointConfiguration {
                    endpoint,
                    variables,
                    http_method,
                    headers,
                    body,
                    response_processor,
                    request_builder,
                },
            )
        }
        _ => None,
    }
}

/// Reads a configuration out of a JSON document; refuses documents that do
/// not have the configuration's shape.
pub fn decode_configuration(v: &JsonValue) -> (r: Result<Configuration, AppError>)
    ensures
        match r {
            Ok(c) => sd_config(v@) == Some(c@),
            Err(e) => sd_config(v@) is None && e is FailedToParseConfig,
        },
{
    let err = || -> AppError { AppError::FailedToParseConfig(String::from_str("configuration")) };
    match v {
        JsonValue::Obj(fields) => {
            let mut domains: Vec<DomainVariant> = Vec::new();
            match jget(fields, "domains") {
                Some(JsonValue::Arr(items)) => {
                    let ghost im = jmodels(items@);
                    let n = items.len();
                    let mut i: usize = 0;
                    while i < n
                        invariant
                            n == items@.len(),
                            im == jmodels(items@),
                            v@ == JsonData::Obj(fmodels(fields@)),
                            jlookup(fmodels(fields@), ("domains")@) == Some(JsonData::Arr(im)),
                            0 <= i <= n,
                            domains@.len() == i,
                            forall|j: int|
                                0 <= j < i ==> sd_domain(#[trigger] im[j]) is Some && domains@[j]@
                                    == sd_domain(im[j])->Some_0,
                        decreases n - i,
                    {
                        match decode_domain(&items[i]) {
                            Some(d) => {
                                domains.push(d);
                            }
                            None => {
                                proof {
                                    assert(!(sd_domain(im[i as int]) is Some));
                                }
                                return Err(
                                    AppError::FailedToParseConfig(String::from_str("domains")),
                                );
                            }
                        }
                        i = i + 1;
                    }
                }
                _ => {
                    return Err(AppError::FailedToParseConfig(String::from_str("domains")));
                }
            }
            let mut endpoints: Vec<EndpointConfiguration> = Vec::new();
            match jget(fields, "endpoints") {
                Some(JsonValue::Arr(items)) => {
                    let ghost im = jmodels(items@);
                    let n = items.len();
                    let mut i: usize = 0;
                    while i < n
                        invariant
                            n == items@.len(),
                            im == jmodels(items@),
                            v@ == JsonData::Obj(fmodels(fields@)),
                            jlookup(fmodels(fields@), ("endpoints")@) == Some(JsonData::Arr(im)),
                            0 <= i <= n,
                            endpoints@.len() == i,
                            forall|j: int|
                                0 <= j < i ==> sd_endpoint(#[trigger] im[j]) is Some
                                    && endpoints@[j]@ == sd_endpoint(im[j])->Some_0,
                        decreases n - i,
                    {
                        match decode_endpoint(&items[i]) {
                            Some(e) => {
                                endpoints.push(e);
                            }
                            None => {
                                proof {
                                    assert(!(sd_endpoint(im[i as int]) is Some));
                                }
                                return Err(
                                    AppError::FailedToParseConfig(String::from_str("endpoints")),
                                );
                            }
                        }
                        i = i + 1;
                    }
                }
                _ => {
                    return Err(AppError::FailedToParseConfig(String::from_str("endpoints")));
                }
            }
            let variables: Option<VariablesMap> = match jget(fields, "variables") {
                None => None,
                Some(JsonValue::Null) => None,
                Some(x) => {
                    match decode_variables(x) {
                        Some(m) => Some(m),
                        None => {
                            return Err(
                                AppError::FailedToParseConfig(String::from_str("variables")),
                            );
                        }
                    }
                }
            };
            let concurrent_jobs: usize = match jget(fields, "concurrent_jobs") {
                None => default_concurrent_jobs(),
                Some(JsonValue::UInt(n)) => {
                    if *n <= usize::MAX as u64 {
                        *n as usize
                    } else {
                        return Err(
                            AppError::FailedToParseConfig(String::from_str("concurrent_jobs")),
                        );
                    }
                }
                Some(_) => {
                    return Err(
                        AppError::FailedToParseConfig(String::from_str("concurrent_jobs")),
                    );
                }
            };
            let c = Configuration { domains, endpoints, variables, concurrent_jobs };
            proof {
                assert(c@.domains =~= sd_config(v@)->Some_0.domains);
                assert(c@.endpoints =~= sd_config(v@)->Some_0.endpoints);
            }
            Ok(c)
        }
        _ => Err(AppError::FailedToParseConfig(String::from_str("configuration"))),
    }
}


// ------------------------- writing, in executable form -------------------------

fn encode_headers(m: &HeadersMap) -> (r: JsonValue)
    ensures
        r@ == se_headers(hm_model(*m)),
{
    let mut fields: Vec<(String, JsonValue)> = Vec::new();
    let n = m.entries.len();
    let mut i: usize = 0;
    while i < n
        invariant
            n == m@.len(),
            0 <= i <= n,
            fields@.len() == i,
            forall|j: int|
                0 <= j < i ==> (#[trigger] fields@[j]).0@ == hm_model(*m)[j].0 && fields@[j].1@
                    == se_header_value(hm_model(*m)[j].1),
        decreases n - i,
    {
        let pair = &m.entries[i];
        let value = match &pair.1 {
            HeaderValue::String(s) => JsonValue::Str(s.clone()),
            HeaderValue::U64(u) => JsonValue::UInt(*u),
        };
        fields.push((pair.0.clone(), value));
        i = i + 1;
    }
    let r = JsonValue::Obj(fields);
    proof {
        assert(r@->Obj_0 =~= se_headers(hm_model(*m))->Obj_0);
    }
    r
}

fn encode_var_value(p: &PathVariableValue) -> (r: JsonValue)
    ensures
        r@ == se_var_value(p@),
{
    match p {
        PathVariableValue::Generator(g) => JsonValue::Str(String::from_str("UUID")),
        PathVariableValue::Int(n) => JsonValue::UInt(*n as u64),
        PathVariableValue::String(s) => JsonValue::Str(s.clone()),
    }
}

fn encode_var(p: &PathVariable) -> (r: JsonValue)
    ensures
        r@ == se_var(p@),
{
    match p {
        PathVariable::SingleValue(v) => encode_var_value(v),
        PathVariable::MultipleValues(vs) => {
            let mut items: Vec<JsonValue> = Vec::new();
            let n = vs.len();
            let mut i: usize = 0;
            while i < n
                invariant
                    n == vs@.len(),
                    0 <= i <= n,
                    items@.len() == i,
                    forall|j: int| 0 <= j < i ==> (#[trigger] items@[j])@ == se_var_value(vs@[j]@),
                decreases n - i,
            {
                items.push(encode_var_value(&vs[i]));
                i = i + 1;
            }
            let r = JsonValue::Arr(items);
            proof {
                assert(r@->Arr_0 =~= se_var(p@)->Arr_0);
            }
            r
        }
    }
}

fn encode_variables(m: &VariablesMap) -> (r: JsonValue)
    ensures
        r@ == se_vars(vars_model(*m)),
{
    let mut fields: Vec<(String, JsonValue)> = Vec::new();
    let n = m.entries.len();
    let mut i: usize = 0;
    while i < n
        invariant
            n == m@.len(),
            0 <= i <= n,
            fields@.len() == i,
            forall|j: int|
                0 <= j < i ==> (#[trigger] fields@[j]).0@ == vars_model(*m)[j].0 && fields@[j].1@
                    == se_var(vars_model(*m)[j].1),
        decreases n - i,
    {
        let pair = &m.entries[i];
        let value = encode_var(&pair.1);
        fields.push((pair.0.clone(), value));
        i = i + 1;
    }
    let r = JsonValue::Obj(fields);
    proof {
        assert(r@->Obj_0 =~= se_vars(vars_model(*m))->Obj_0);
    }
    r
}

fn encode_method(m: &HttpMethod) -> (r: JsonValue)
    ensures
        r@ == se_method(*m),
{
    match m {
        HttpMethod::GET => JsonValue::Str(String::from_str("GET")),
        HttpMethod::POST => JsonValue::Str(String::from_str("POST")),
        HttpMethod::PATCH => JsonValue::Str(String::from_str("PATCH")),
        HttpMethod::PUT => JsonValue::Str(String::from_str("PUT")),
        HttpMethod::DELETE => JsonValue::Str(String::from_str("DELETE")),
    }
}

fn encode_string_arr(v: &Vec<String>) -> (r: JsonValue)
    ensures
        r@ == se_string_arr(strs_model(v@)),
{
    let mut items: Vec<JsonValue> = Vec::new();
    let n = v.len();
    let mut i: usize = 0;
    while i < n
        invariant
            n == v@.len(),
            0 <= i <= n,
            items@.len() == i,
            forall|j: int| 0 <= j < i ==> (#[trigger] items@[j])@ == JsonData::Str(v@[j]@),
        decreases n - i,
    {
        items.push(JsonValue::Str(v[i].clone()));
        i = i + 1;
    }
    let r = JsonValue::Arr(items);
    proof {
        assert(r@->Arr_0 =~= se_string_arr(strs_model(v@))->Arr_0);
    }
    r
}

fn encode_domain(d: &DomainVariant) -> (r: JsonValue)
    ensures
        r@ == se_domain(d@),
{
    match d {
        DomainVariant::Url(s) => JsonValue::Str(s.clone()),
        DomainVariant::UrlWithHeaders(u) => {
            let headers_value = match &u.headers {
                Some(h) => encode_headers(h),
                None => JsonValue::Null,
            };
            let ghost hv = headers_value@;
            let mut fields: Vec<(String, JsonValue)> = Vec::new();
            fields.push((String::from_str("domain"), JsonValue::Str(u.domain.clone())));
            fields.push((String::from_str("headers"), headers_value));
            let r = JsonValue::Obj(fields);
            proof {
                assert(d@ == DomainModel::UrlWithHeaders(
                    u.domain@,
                    match u.headers {
                        Some(h) => Some(hm_model(h)),
                        None => None,
                    },
                ));
                assert(fields@.len() == 2);
                assert(fmodels(fields@)[0] == (("domain")@, JsonData::Str(u.domain@)));
                assert(fmodels(fields@)[1] == (("headers")@, hv));
                assert(se_domain(d@)->Obj_0.len() == 2);
                assert(se_domain(d@)->Obj_0[0] == (("domain")@, JsonData::Str(u.domain@)));
                assert(se_domain(d@)->Obj_0[1] == (("headers")@, hv));
                assert(r@->Obj_0 =~= se_domain(d@)->Obj_0);
            }
            r
        }
    }
}

fn encode_endpoint(e: &EndpointConfiguration) -> (r: JsonValue)
    ensures
        r@ == se_endpoint(e@),
{
    let variables = match &e.variables {
        Some(v) => encode_variables(v),
        None => JsonValue::Null,
    };
    let http_method = match &e.http_method {
        Some(m) => encode_method(m),
        None => JsonValue::Null,
    };
    let headers = match &e.headers {
        Some(h) => encode_headers(h),
        None => JsonValue::Null,
    };
    let body = match &e.body {
        Some(b) => b.clone(),
        None => JsonValue::Null,
    };
    let response_processor = match &e.response_processor {
        Some(p) => encode_string_arr(p),
        None => JsonValue::Null,
    };
    let request_builder = match &e.request_builder {
        Some(p) => encode_string_arr(p),
        None => JsonValue::Null,
    };
    let ghost m1 = variables@;
    let ghost m2 = http_method@;
    let ghost m3 = headers@;
    let ghost m4 = body@;
    let ghost m5 = response_processor@;
    let ghost m6 = request_builder@;
    let mut fields: Vec<(String, JsonValue)> = Vec::new();
    fields.push((String::from_str("endpoint"), JsonValue::Str(e.endpoint.clone())));
    fields.push((String::from_str("variables"), variables));
    fields.push((String::from_str("http_method"), http_method));
    fields.push((String::from_str("headers"), headers));
    fields.push((String::from_str("body"), body));
    fields.push((String::from_str("response_processor"), response_processor));
    fields.push((String::from_str("request_builder"), request_builder));
    let r = JsonValue::Obj(fields);
    proof {
        assert(fields@.len() == 7);
        assert(fmodels(fields@)[0] == (("endpoint")@, JsonData::Str(e.endpoint@)));
        assert(fmodels(fields@)[1] == (("variables")@, m1));
        assert(fmodels(fields@)[2] == (("http_method")@, m2));
        assert(fmodels(fields@)[3] == (("headers")@, m3));
        assert(fmodels(fields@)[4] == (("body")@, m4));
        assert(fmodels(fields@)[5] == (("response_processor")@, m5));
        assert(fmodels(fields@)[6] == (("request_builder")@, m6));
        assert(se_endpoint(e@)->Obj_0[0] == (("endpoint")@, JsonData::Str(e.endpoint@)));
        assert(se_endpoint(e@)->Obj_0[1] == (("variables")@, m1));
        assert(se_endpoint(e@)->Obj_0[2] == (("http_method")@, m2));
        assert(se_endpoint(e@)->Obj_0[3] == (("headers")@, m3));
        assert(se_endpoint(e@)->Obj_0[4] == (("body")@, m4));
        assert(se_endpoint(e@)->Obj_0[5] == (("response_processor")@, m5));
        assert(se_endpoint(e@)->Obj_0[6] == (("request_builder")@, m6));
        assert(r@->Obj_0 =~= se_endpoint(e@)->Obj_0);
    }
    r
}

/// Writes a configuration out as a JSON document, optional members as null.
pub fn encode_configuration(c: &Configuration) -> (r: JsonValue)
    ensures
        r@ == se_config(c@),
{
    let mut domain_items: Vec<JsonValue> = Vec::new();
    let nd = c.domains.len();
    let mut i: usize = 0;
    while i < nd
        invariant
            nd == c.domains@.len(),
            0 <= i <= nd,
            domain_items@.len() == i,
            forall|j: int| 0 <= j < i ==> (#[trigger] domain_items@[j])@ == se_domain(c.domains@[j]@),
        decreases nd - i,
    {
        domain_items.push(encode_domain(&c.domains[i]));
        i = i + 1;
    }
    let mut endpoint_items: Vec<JsonValue> = Vec::new();
    let ne = c.endpoints.len();
    let mut k: usize = 0;
    while k < ne
        invariant
            ne == c.endpoints@.len(),
            0 <= k <= ne,
            endpoint_items@.len() == k,
            forall|j: int|
                0 <= j < k ==> (#[trigger] endpoint_items@[j])@ == se_endpoint(c.endpoints@[j]@),
        decreases ne - k,
    {
        endpoint_items.push(encode_endpoint(&c.endpoints[k]));
        k = k + 1;
    }
    let variables = match &c.variables {
        Some(v) => encode_variables(v),
        None => JsonValue::Null,
    };
    let ghost dm = jmodels(domain_items@);
    let ghost em = jmodels(endpoint_items@);
    let ghost vm = variables@;
    let mut fields: Vec<(String, JsonValue)> = Vec::new();
    fields.push((String::from_str("domains"), JsonValue::Arr(domain_items)));
    fields.push((String::from_str("endpoints"), JsonValue::Arr(endpoint_items)));
    fields.push((String::from_str("variables"), variables));
    fields.push((String::from_str("concurrent_jobs"), JsonValue::UInt(c.concurrent_jobs as u64)));
    let r = JsonValue::Obj(fields);
    proof {
        assert(fields@.len() == 4);
        assert(dm =~= se_config(c@)->Obj_0[0].1->Arr_0);
        assert(em =~= se_config(c@)->Obj_0[1].1->Arr_0);
        assert(fmodels(fields@)[0] == (("domains")@, JsonData::Arr(dm)));
        assert(fmodels(fields@)[1] == (("endpoints")@, JsonData::Arr(em)));
        assert(fmodels(fields@)[2] == (("variables")@, vm));
        assert(fmodels(fields@)[3] == (("concurrent_jobs")@, JsonData::UInt(c.concurrent_jobs as u64)));
        assert(se_config(c@)->Obj_0[0] == (("domains")@, JsonData::Arr(dm)));
        assert(se_config(c@)->Obj_0[1] == (("endpoints")@, JsonData::Arr(em)));
        assert(se_config(c@)->Obj_0[2] == (("variables")@, vm));
        assert(se_config(c@)->Obj_0[3] == (("concurrent_jobs")@, JsonData::UInt(c.concurrent_jobs as u64)));
        assert(r@->Obj_0 =~= se_config(c@)->Obj_0);
    }
    r
}

// ------------------------- URL normalization -------------------------

/// A domain with its URL in normalized form.
pub open spec fn norm_domain(d: DomainModel) -> Option<DomainModel> {
    match d {
        DomainModel::Url(s) => match crate::urls::url_norm_of(s) {
            Some(t) => Some(DomainModel::Url(t)),
            None => None,
        },
        DomainModel::UrlWithHeaders(s, h) => match crate::urls::url_norm_of(s) {
            Some(t) => Some(DomainModel::UrlWithHeaders(t, h)),
            None => None,
        },
    }
}

pub open spec fn norm_domains(ds: Seq<DomainModel>) -> Option<Seq<DomainModel>> {
    if forall|i: int| 0 <= i < ds.len() ==> norm_domain(#[trigger] ds[i]) is Some {
        Some(
            Seq::new(
                ds.len(),
                |i: int|
                    if 0 <= i < ds.len() {
                        norm_domain(ds[i])->Some_0
                    } else {
                        ds[i]
                    },
            ),
        )
    } else {
        None
    }
}

/// The configuration with every domain URL normalized.
pub open spec fn norm_config(m: ConfigModel) -> Option<ConfigModel> {
    match norm_domains(m.domains) {
        Some(ds) => Some(ConfigModel { domains: ds, ..m }),
        None => None,
    }
}

/// Whether a domain's URL is a fixed point of normalization.
pub open spec fn normed_domain(d: DomainModel) -> bool {
    match d {
        DomainModel::Url(s) => crate::urls::url_norm_of(s) == Some(s),
        DomainModel::UrlWithHeaders(s, _) => crate::urls::url_norm_of(s) == Some(s),
    }
}

pub open spec fn normed_config(m: ConfigModel) -> bool {
    forall|i: int| 0 <= i < m.domains.len() ==> normed_domain(#[trigger] m.domains[i])
}

/// What a configuration document parses to: its decoded form with every
/// domain URL normalized.
pub open spec fn spec_parse(v: JsonData) -> Option<ConfigModel> {
    match sd_config(v) {
        Some(m) => norm_config(m),
        None => None,
    }
}

fn normalize_domain(d: DomainVariant) -> (r: Result<DomainVariant, AppError>)
    ensures
        match r {
            Ok(d2) => norm_domain(d@) == Some(d2@) && normed_domain(d2@),
            Err(e) => norm_domain(d@) is None && e is FailedToParseConfig,
        },
{
    match d {
        DomainVariant::Url(s) => match crate::urls::normalize_url(s.as_str()) {
            Some(t) => Ok(DomainVariant::Url(t)),
            None => Err(AppError::FailedToParseConfig(s)),
        },
        DomainVariant::UrlWithHeaders(u) => match crate::urls::normalize_url(u.domain.as_str()) {
            Some(t) => Ok(
                DomainVariant::UrlWithHeaders(
                    UrlWithOptionalHeaders { domain: t, headers: u.headers },
                ),
            ),
            None => Err(AppError::FailedToParseConfig(u.domain)),
        },
    }
}

/// Replaces every domain URL by its normalized form; a URL that does not
/// parse makes the whole configuration unreadable.
pub fn normalize_configuration(c: Configuration) -> (r: Result<Configuration, AppError>)
    ensures
        match r {
            Ok(c2) => norm_config(c@) == Some(c2@) && normed_config(c2@),
            Err(e) => norm_config(c@) is None && e is FailedToParseConfig,
        },
{
    let Configuration { domains, endpoints, variables, concurrent_jobs } = c;
    let ghost orig = domains@;
    let mut rest = domains;
    let mut out: Vec<DomainVariant> = Vec::new();
    while rest.len() > 0
        invariant
            orig == c.domains@,
            c@.domains == Seq::new(orig.len(), |i: int| orig[i]@),
            out@.len() + rest@.len() == orig.len(),
            forall|j: int| 0 <= j < rest@.len() ==> rest@[j] == orig[out@.len() + j],
            forall|j: int|
                0 <= j < out@.len() ==> norm_domain(#[trigger] orig[j]@) is Some && out@[j]@
                    == norm_domain(orig[j]@)->Some_0 && normed_domain(out@[j]@),
        decreases rest@.len(),
    {
        let d = rest.remove(0);
        let ghost di = out@.len() as int;
        match normalize_domain(d) {
            Ok(d2) => {
                out.push(d2);
            }
            Err(e) => {
                proof {
                    assert(orig[di] == d);
                    assert(c@.domains[di] == d@);
                    assert(!(norm_domain(c@.domains[di]) is Some));
                }
                return Err(e);
            }
        }
        proof {
            assert forall|j: int| 0 <= j < rest@.len() implies rest@[j] == orig[out@.len() + j] by {
            }
        }
    }
    let c2 = Configuration { domains: out, endpoints, variables, concurrent_jobs };
    proof {
        assert forall|i: int| 0 <= i < c@.domains.len() implies norm_domain(
            #[trigger] c@.domains[i],
        ) is Some by {
            assert(c@.domains[i] == orig[i]@);
        }
        assert(c2@.domains =~= norm_domains(c@.domains)->Some_0);
        assert(c2@.endpoints =~= c@.endpoints);
    }
    Ok(c2)
}

impl Configuration {
    /// Accepts only configurations with at least two domains and one
    /// endpoint.
    pub fn validate(&self) -> (r: Result<(), AppError>)
        ensures
            r is Ok <==> (self.domains@.len() >= 2 && self.endpoints@.len() >= 1),
            self.domains@.len() < 2 ==> (r matches Err(e) && e matches AppError::ValidationError(m)
                && m@ == ("Minimum 2 domains required")@),
            self.domains@.len() >= 2 && self.endpoints@.len() == 0 ==> (r matches Err(e)
                && e matches AppError::ValidationError(m) && m@ == (
            "No endpoints were specified")@),
    {
        if self.domains.len() < 2 {
            return Err(AppError::ValidationError(String::from_str("Minimum 2 domains required")));
        }
        if self.endpoints.len() == 0 {
            return Err(AppError::ValidationError(String::from_str("No endpoints were specified")));
        }
        Ok(())
    }
}

/// Reads a configuration out of a JSON document, normalizes its domain URLs
/// and checks its shape; says which step refused it and why.
pub fn load_configuration_from_json(v: &JsonValue) -> (r: Result<Configuration, AppError>)
    ensures
        match r {
            Ok(c) => spec_parse(v@) == Some(c@) && normed_config(c@) && c@.domains.len() >= 2
                && c@.endpoints.len() >= 1,
            Err(e) => (e is FailedToParseConfig && spec_parse(v@) is None) || (
            e is ValidationError && (spec_parse(v@) matches Some(m) && (m.domains.len() < 2
                || m.endpoints.len() == 0))),
        },
{
    let decoded = match decode_configuration(v) {
        Ok(c) => c,
        Err(e) => {
            return Err(e);
        }
    };
    let normalized = match normalize_configuration(decoded) {
        Ok(c) => c,
        Err(e) => {
            return Err(e);
        }
    };
    match normalized.validate() {
        Ok(()) => Ok(normalized),
        Err(e) => Err(e),
    }
}

/// Parsing a configuration, writing it out and parsing the written form
/// gives back the first parse: parsing is idempotent across serialization.
/// The second hypothesis holds of everything the parser returns: its domain
/// URLs are fixed points of normalization.
pub proof fn lemma_parse_round_trip(v: JsonData)
    requires
        spec_parse(v) is Some,
        normed_config(spec_parse(v)->Some_0),
    ensures
        spec_parse(se_config(spec_parse(v)->Some_0)) == spec_parse(v),
{
    let m0 = sd_config(v)->Some_0;
    let m = spec_parse(v)->Some_0;
    lemma_decode_canonical(v);
    assert(m.endpoints == m0.endpoints);
    assert(m.variables == m0.variables);
    assert(canon_config(m));
    lemma_rt_config(m);
    assert(sd_config(se_config(m)) == Some(m));
    assert forall|i: int| 0 <= i < m.domains.len() implies norm_domain(
        #[trigger] m.domains[i],
    ) is Some by {
        assert(normed_domain(m.domains[i]));
    }
    assert(norm_domains(m.domains)->Some_0 =~= m.domains);
    assert(norm_config(m) == Some(m));
}


/// The template configuration, member for member: two local domains (the
/// second with a cookie header), a health check behind a request builder, a
/// templated user lookup with sample variables and a processor, and a user
/// creation with a body and a processor; twenty jobs at once.
pub open spec fn spec_default_config() -> ConfigModel {
    ConfigModel {
        domains: seq![
            DomainModel::Url(("http://localhost:3000/")@),
            DomainModel::UrlWithHeaders(
                ("http://localhost:3001/")@,
                Some(seq![(("cookie")@, HvModel::Str(("auth=test")@))]),
            ),
        ],
        endpoints: seq![
            EndpointModel {
                endpoint: ("/health")@,
                variables: None,
                http_method: None,
                headers: Some(seq![(("x-test")@, HvModel::Str(("true")@))]),
                body: None,
                response_processor: None,
                request_builder: Some(seq![("python3")@, ("script.py")@]),
            },
            EndpointModel {
                endpoint: ("/api/v1/users/<userId>?skip=<skip>")@,
                variables: Some(
                    seq![
                        (
                            ("userId")@,
                            VarModel::Multiple(
                                seq![
                                    PvvModel::Int(123),
                                    PvvModel::Str(("true")@),
                                    PvvModel::Generator(VariableGenerator::UUID),
                                ],
                            ),
                        ),
                        (("skip")@, VarModel::Single(PvvModel::Generator(VariableGenerator::UUID))),
                    ],
                ),
                http_method: Some(HttpMethod::GET),
                headers: None,
                body: None,
                response_processor: Some(seq![("jq")@, ("del(.headers.auth)")@]),
                request_builder: None,
            },
            EndpointModel {
                endpoint: ("/api/v1/users")@,
                variables: None,
                http_method: Some(HttpMethod::POST),
                headers: None,
                body: Some(
                    JsonData::Obj(seq![(("username")@, JsonData::Str(("test")@))]),
                ),
                response_processor: Some(seq![("jq")@, ("del(.headers.auth, .body.id)")@]),
                request_builder: None,
            },
        ],
        variables: None,
        concurrent_jobs: 20,
    }
}

impl Configuration {
    /// The configuration written out as a starting point.
    pub fn default() -> (r: Configuration)
        ensures
            r@ == spec_default_config(),
            r@.domains.len() == 2,
            r@.endpoints.len() == 3,
            r@.concurrent_jobs == 20,
            r@.variables is None,
    {
        let mut second_domain_headers: HeadersMap = StringMap { entries: Vec::new() };
        second_domain_headers.insert(
            String::from_str("cookie"),
            HeaderValue::String(String::from_str("auth=test")),
        );
        let mut health_headers: HeadersMap = StringMap { entries: Vec::new() };
        health_headers.insert(
            String::from_str("x-test"),
            HeaderValue::String(String::from_str("true")),
        );
        let mut user_values: Vec<PathVariableValue> = Vec::new();
        user_values.push(PathVariableValue::Int(123));
        user_values.push(PathVariableValue::String(String::from_str("true")));
        user_values.push(PathVariableValue::Generator(VariableGenerator::UUID));
        let mut user_variables: VariablesMap = StringMap { entries: Vec::new() };
        let ghost uv0 = user_variables@;
        let user_key = String::from_str("userId");
        let user_var = PathVariable::MultipleValues(user_values);
        let ghost user_pair = (user_key, user_var);
        user_variables.insert(user_key, user_var);
        let ghost uv1 = user_variables@;
        let skip_key = String::from_str("skip");
        let skip_var = PathVariable::SingleValue(
            PathVariableValue::Generator(VariableGenerator::UUID),
        );
        let ghost skip_pair = (skip_key, skip_var);
        user_variables.insert(skip_key, skip_var);
        proof {
            reveal_strlit("userId");
            reveal_strlit("skip");
            assert(("userId")@.len() == 6);
            assert(("skip")@.len() == 4);
            assert(uv0.len() == 0);
            assert(uv1 =~= uv0.push(user_pair));
            crate::types::lemma_key_index(uv1, ("skip")@);
            assert(uv1[0].0@ != ("skip")@);
            assert(user_variables@ =~= uv1.push(skip_pair));
        }
        let mut payload_fields: Vec<(String, JsonValue)> = Vec::new();
        payload_fields.push(
            (String::from_str("username"), JsonValue::Str(String::from_str("test"))),
        );
        let create_user_payload = JsonValue::Obj(payload_fields);
        let mut domains: Vec<DomainVariant> = Vec::new();
        domains.push(DomainVariant::Url(String::from_str("http://localhost:3000/")));
        domains.push(
            DomainVariant::UrlWithHeaders(
                UrlWithOptionalHeaders {
                    domain: String::from_str("http://localhost:3001/"),
                    headers: Some(second_domain_headers),
                },
            ),
        );
        let mut health_builder: Vec<String> = Vec::new();
        health_builder.push(String::from_str("python3"));
        health_builder.push(String::from_str("script.py"));
        let mut users_processor: Vec<String> = Vec::new();
        users_processor.push(String::from_str("jq"));
        users_processor.push(String::from_str("del(.headers.auth)"));
        let mut create_processor: Vec<String> = Vec::new();
        create_processor.push(String::from_str("jq"));
        create_processor.push(String::from_str("del(.headers.auth, .body.id)"));
        let mut endpoints: Vec<EndpointConfiguration> = Vec::new();
        endpoints.push(
            EndpointConfiguration {
                endpoint: String::from_str("/health"),
                variables: None,
                http_method: None,
                headers: Some(health_headers),
                body: None,
                response_processor: None,
                request_builder: Some(health_builder),
            },
        );
        endpoints.push(
            EndpointConfiguration {
                endpoint: String::from_str("/api/v1/users/<userId>?skip=<skip>"),
                variables: Some(user_variables),
                http_method: Some(HttpMethod::GET),
                headers: None,
                body: None,
                response_processor: Some(users_processor),
                request_builder: None,
            },
        );
        endpoints.push(
            EndpointConfiguration {
                endpoint: String::from_str("/api/v1/users"),
                variables: None,
                http_method: Some(HttpMethod::POST),
                headers: None,
                body: Some(create_user_payload),
                response_processor: Some(create_processor),
                request_builder: None,
            },
        );
        let r = Configuration { domains, endpoints, variables: None, concurrent_jobs: 20 };
        proof {
            reveal_strlit("userId");
            reveal_strlit("skip");
            assert(("userId")@.len() == 6);
            assert(("skip")@.len() == 4);
            let want = spec_default_config();
            assert(r@.domains[1]->UrlWithHeaders_1->Some_0 =~= want.domains[1]->UrlWithHeaders_1->Some_0);
            assert(r@.domains =~= want.domains);
            assert(r@.endpoints[0].headers->Some_0 =~= want.endpoints[0].headers->Some_0);
            assert(r@.endpoints[0].request_builder->Some_0 =~= want.endpoints[0].request_builder->Some_0);
            assert(r@.endpoints[0] == want.endpoints[0]);
            assert(user_values@[0]@ == PvvModel::Int(123));
            assert(user_values@[1]@ == PvvModel::Str(("true")@));
            assert(user_values@[2]@ == PvvModel::Generator(VariableGenerator::UUID));
            assert(user_variables@.len() == 2);
            assert(user_variables@[0].0@ == ("userId")@);
            assert(user_variables@[0].1@->Multiple_0 =~= seq![
                PvvModel::Int(123),
                PvvModel::Str(("true")@),
                PvvModel::Generator(VariableGenerator::UUID),
            ]);
            assert(user_variables@[1].0@ == ("skip")@);
            assert(vars_model(user_variables) =~= want.endpoints[1].variables->Some_0);
            assert(r@.endpoints[1].variables->Some_0 =~= want.endpoints[1].variables->Some_0);
            assert(r@.endpoints[1].response_processor->Some_0 =~= want.endpoints[1].response_processor->Some_0);
            assert(r@.endpoints[1] == want.endpoints[1]);
            assert(fmodels(payload_fields@) =~= seq![(("username")@, JsonData::Str(("test")@))]);
            assert(r@.endpoints[2].body->Some_0->Obj_0 =~= want.endpoints[2].body->Some_0->Obj_0);
            assert(r@.endpoints[2].response_processor->Some_0 =~= want.endpoints[2].response_processor->Some_0);
            assert(r@.endpoints[2] == want.endpoints[2]);
            assert(r@.endpoints =~= want.endpoints);
        }
        r
    }
}

} // verus!
