use vstd::prelude::*;
use crate::types::{AppError, HeaderValue, HeadersMap, HttpMethod, PathVariable, PathVariableValue,
    StringMap, VariablesMap, PlaceholderToValueMap, slookup, lemma_key_index, lemma_upsert,
    VariableGenerator};
use crate::config::{Configuration, ConfigModel, DomainModel, DomainVariant, EndpointConfiguration,
    EndpointModel, HeadersModel, HvModel, VarsModel, hm_model, vars_model};
use crate::json::JsonValue;
use crate::request::Request;
use crate::job::Job;
use crate::text::{get_placeholders_from_string, replace_placeholder_with_value, spec_placeholders};
use crate::vars::{combo_count, contains_str, flatten_variables_map, merge_m, slookupm};
use crate::urls::{join_url, url_join_of};

verus! {

/// The value of the last entry bearing `key`, if any: what insertion order
/// leaves in force.
pub open spec fn rlookup<V>(s: Seq<(String, V)>, key: Seq<char>) -> Option<V>
    decreases s.len(),
{
    if s.len() == 0 {
        None
    } else if s.last().0@ == key {
        Some(s.last().1)
    } else {
        rlookup(s.drop_last(), key)
    }
}

impl StringMap<HeaderValue> {
    /// Inserts every entry of `other` in order, so that on a shared key the
    /// last entry of `other` wins.
    pub fn extend_with(&mut self, other: &Self)
        ensures
            forall|k: Seq<char>|
                slookup(final(self)@, k) == (match rlookup(other@, k) {
                    Some(v) => Some(v),
                    None => slookup(old(self)@, k),
                }),
    {
        let n = other.entries.len();
        let mut i: usize = 0;
        while i < n
            invariant
                n == other@.len(),
                0 <= i <= n,
                forall|k: Seq<char>|
                    slookup(self@, k) == (match rlookup(other@.take(i as int), k) {
                        Some(v) => Some(v),
                        None => slookup(old(self)@, k),
                    }),
            decreases n - i,
        {
            let pair = &other.entries[i];
            proof {
                assert(other@.take(i + 1).drop_last() =~= other@.take(i as int));
                assert(other@.take(i + 1).last() == other@[i as int]);
            }
            let kc = pair.0.clone();
            let vc = pair.1.clone();
            let ghost kk = kc@;
            let ghost kstr = kc;
            let ghost vv = vc;
            let ghost pre = self@;
            self.insert(kc, vc);
            proof {
                assert forall|k: Seq<char>|
                    slookup(self@, k) == (match rlookup(other@.take(i + 1), k) {
                        Some(v) => Some(v),
                        None => slookup(old(self)@, k),
                    }) by {
                    if k == kk {
                        assert(slookup(self@, k) == Some(vv));
                        assert(other@.take(i + 1).last() == other@[i as int]);
                        assert(rlookup(other@.take(i + 1), k) == Some(other@[i as int].1));
                        assert(vv == other@[i as int].1);
                    } else {
                        assert(slookup(pre, k) == (match rlookup(other@.take(i as int), k) {
                            Some(v) => Some(v),
                            None => slookup(old(self)@, k),
                        }));
                        lemma_upsert(pre, kstr, vv);
                        assert(self@ == crate::types::upsert(pre, kstr, vv));
                        assert(slookup(self@, k) == slookup(pre, k));
                        assert(rlookup(other@.take(i + 1), k) == rlookup(other@.take(i as int), k));
                    }
                }
            }
            i = i + 1;
        }
        proof {
            assert(other@.take(i as int) =~= other@);
        }
    }

}

/// The effective headers of a request: the domain's and the endpoint's
/// together, the endpoint deciding on a shared name; nothing when neither
/// side has headers.
pub fn build_endpoint_headers(domain: Option<HeadersMap>, endpoint: Option<HeadersMap>) -> (r:
    Option<HeadersMap>)
    ensures
        r is Some <==> (domain is Some || endpoint is Some),
        (domain is Some && endpoint is Some) ==> (r matches Some(m) && forall|k: Seq<char>|
            slookup(m@, k) == (match rlookup(endpoint->Some_0@, k) {
                Some(v) => Some(v),
                None => slookup(domain->Some_0@, k),
            })),
        (domain is None && endpoint is Some) ==> (r matches Some(m) && m@ == endpoint->Some_0@),
        (domain is Some && endpoint is None) ==> (r matches Some(m) && m@ == domain->Some_0@),
{
    match (domain, endpoint) {
        (Some(mut domain_headers), Some(endpoint_headers)) => {
            domain_headers.extend_with(&endpoint_headers);
            Some(domain_headers)
        }
        (None, Some(endpoint_headers)) => Some(endpoint_headers),
        (Some(domain_headers), None) => Some(domain_headers),
        (None, None) => None,
    }
}

/// The URL text a domain entry carries.
pub open spec fn spec_domain_url(d: DomainModel) -> Seq<char> {
    match d {
        DomainModel::Url(s) => s,
        DomainModel::UrlWithHeaders(s, _) => s,
    }
}

/// The headers a domain entry carries.
pub open spec fn spec_domain_headers(d: DomainModel) -> Option<HeadersModel> {
    match d {
        DomainModel::Url(_) => None,
        DomainModel::UrlWithHeaders(_, h) => h,
    }
}

/// Relies on uuid::Uuid::new_v4 and its hyphenated rendering: a fresh random
/// identifier of 36 characters; nothing else holds of it.
#[verifier::external_body]
fn generate_uuid() -> (r: String)
    ensures
        r@.len() == 36,
{
    uuid::Uuid::new_v4().to_string()
}

/// The variables in force for an endpoint: the shared map with the
/// endpoint's own entries inserted over it.
pub open spec fn spec_endpoint_vars(c: ConfigModel, e: EndpointModel) -> VarsModel {
    let base = match c.variables {
        Some(g) => merge_m(Seq::empty(), g),
        None => Seq::empty(),
    };
    match e.variables {
        Some(l) => merge_m(base, l),
        None => base,
    }
}

/// How many jobs one endpoint yields: one per combination of the variables
/// that its placeholders name, or a single job when no placeholder has a
/// variable.
pub open spec fn spec_endpoint_job_count(c: ConfigModel, e: EndpointModel) -> nat {
    let pv = spec_placeholders(e.endpoint);
    let merged = spec_endpoint_vars(c, e);
    let with_vars = exists|p: int|
        0 <= p < pv.len() && slookupm(merged, #[trigger] pv[p]) is Some;
    if !with_vars {
        1
    } else {
        combo_count(merged.filter(|ent: (Seq<char>, crate::config::VarModel)| contains_str(pv, ent.0)))
    }
}

/// The total number of jobs a configuration yields: the sum over its
/// endpoints of the product of the sizes of the variables their placeholders
/// name.
pub open spec fn spec_job_count(c: ConfigModel, upto: int) -> nat
    decreases upto,
{
    if upto <= 0 {
        0
    } else {
        spec_job_count(c, upto - 1) + spec_endpoint_job_count(c, c.endpoints[upto - 1])
    }
}

/// One request per domain for a concrete endpoint instance named `name`.
fn map_single_job(
    domains: &Vec<DomainVariant>,
    endpoint_config: &EndpointConfiguration,
    name: &String,
) -> (r: Result<Job, AppError>)
    ensures
        match r {
            Ok(job) => {
                &&& job@.job_name == name@
                &&& job@.status == crate::types::JobStatus::Pending
                &&& job@.job_duration is None
                &&& job@.response_processor == endpoint_config@.response_processor
                &&& job@.request_builder == endpoint_config@.request_builder
                &&& job@.requests.len() == domains@.len()
                &&& forall|d: int|
                    0 <= d < domains@.len() ==> url_join_of(
                        spec_domain_url(#[trigger] domains@[d]@),
                        name@,
                    ) == Some(job@.requests[d].uri)
                &&& forall|d: int|
                    0 <= d < domains@.len() ==> (#[trigger] job@.requests[d]).http_method == (
                    match endpoint_config@.http_method {
                        Some(m) => m,
                        None => HttpMethod::GET,
                    })
                &&& forall|d: int|
                    0 <= d < domains@.len() ==> (#[trigger] job@.requests[d]).body
                        == endpoint_config@.body
                &&& forall|d: int|
                    0 <= d < domains@.len() ==> ((#[trigger] job@.requests[d]).headers
                        is Some <==> (spec_domain_headers(domains@[d]@) is Some
                        || endpoint_config@.headers is Some))
                &&& forall|d: int|
                    0 <= d < domains@.len() ==> (#[trigger] job@.requests[d]).status
                        == crate::types::JobStatus::Pending && job@.requests[d].response is None
                        && job@.requests[d].diffs.len() == 0 && !job@.requests[d].has_diffs
                        && job@.requests[d].job_duration is None
            },
            Err(e) => (exists|d: int|
                0 <= d < domains@.len() && url_join_of(
                    spec_domain_url(#[trigger] domains@[d]@),
                    name@,
                ) is None) && e is FailedToParseConfig,
        },
{
    let mut requests: Vec<Request> = Vec::new();
    let n = domains.len();
    let mut i: usize = 0;
    while i < n
        invariant
            n == domains@.len(),
            0 <= i <= n,
            requests@.len() == i,
            forall|d: int|
                0 <= d < i ==> url_join_of(spec_domain_url(#[trigger] domains@[d]@), name@) == Some(
                    requests@[d]@.uri,
                ),
            forall|d: int|
                0 <= d < i ==> (#[trigger] requests@[d])@.http_method == (
                match endpoint_config@.http_method {
                    Some(m) => m,
                    None => HttpMethod::GET,
                }),
            forall|d: int| 0 <= d < i ==> (#[trigger] requests@[d])@.body == endpoint_config@.body,
            forall|d: int|
                0 <= d < i ==> ((#[trigger] requests@[d])@.headers is Some <==> (
                spec_domain_headers(domains@[d]@) is Some || endpoint_config@.headers is Some)),
            forall|d: int|
                0 <= d < i ==> (#[trigger] requests@[d])@.status == crate::types::JobStatus::Pending
                    && requests@[d]@.response is None && requests@[d]@.diffs.len() == 0
                    && !requests@[d]@.has_diffs && requests@[d]@.job_duration is None,
        decreases n - i,
    {
        let domain_variant = &domains[i];
        let (domain_url, domain_headers): (&String, Option<HeadersMap>) = match domain_variant {
            DomainVariant::Url(u) => (u, None),
            DomainVariant::UrlWithHeaders(uh) => (
                &uh.domain,
                match &uh.headers {
                    Some(h) => Some(h.duplicate()),
                    None => None,
                },
            ),
        };
        let uri = match join_url(domain_url.as_str(), name.as_str()) {
            Some(u) => u,
            None => {
                let mut msg = domain_url.clone();
                msg.append(" with ");
                msg.append(name.as_str());
                proof {
                    assert(url_join_of(spec_domain_url(domains@[i as int]@), name@) is None);
                }
                return Err(AppError::FailedToParseConfig(msg));
            }
        };
        let endpoint_headers = match &endpoint_config.headers {
            Some(h) => Some(h.duplicate()),
            None => None,
        };
        let headers_mapped = build_endpoint_headers(domain_headers, endpoint_headers);
        let http_method = match &endpoint_config.http_method {
            Some(m) => *m,
            None => HttpMethod::GET,
        };
        let body = match &endpoint_config.body {
            Some(b) => Some(b.clone()),
            None => None,
        };
        let request = Request::new(&uri, &http_method, headers_mapped, body);
        requests.push(request);
        i = i + 1;
    }
    Ok(
        Job::new(
            requests,
            name.as_str(),
            &endpoint_config.response_processor,
            &endpoint_config.request_builder,
        ),
    )
}

/// The text a resolved variable value is written as.
pub open spec fn pvv_text(p: crate::config::PvvModel) -> Seq<char> {
    match p {
        crate::config::PvvModel::Str(s) => s,
        crate::config::PvvModel::Int(n) => crate::utils::dec_str(n as nat),
        crate::config::PvvModel::Generator(_) => Seq::empty(),
    }
}

/// The printed form of one resolved variable value.
fn value_for_replacement(value: &PathVariableValue) -> (r: String)
    ensures
        r@ == pvv_text(value@),
{
    match value {
        PathVariableValue::Generator(g) => String::new(),
        PathVariableValue::String(s) => s.clone(),
        PathVariableValue::Int(n) => crate::utils::u64_to_string(*n as u64),
    }
}

/// The template with each listed placeholder replaced, left to right, by
/// the value the combination gives it.
pub open spec fn spec_subst(
    template: Seq<char>,
    placeholders: Seq<Seq<char>>,
    combo: crate::vars::Combo,
) -> Seq<char>
    decreases placeholders.len(),
{
    if placeholders.len() == 0 {
        template
    } else {
        let t2 = match slookupm(combo, placeholders[0]) {
            Some(v) => crate::text::spec_replace_all(
                template,
                crate::text::spec_pattern(placeholders[0]),
                pvv_text(v),
            ),
            None => template,
        };
        spec_subst(t2, placeholders.skip(1), combo)
    }
}

/// Whether `resolved` is `combo` with every generator entry replaced by
/// some drawn 36-character text.
pub open spec fn is_draw_of(resolved: crate::vars::Combo, combo: crate::vars::Combo) -> bool {
    &&& resolved.len() == combo.len()
    &&& forall|j: int|
        0 <= j < combo.len() ==> (#[trigger] resolved[j]).0 == combo[j].0
    &&& forall|j: int|
        0 <= j < combo.len() ==> ((combo[j].1 is Generator ==> (#[trigger] resolved[j]).1 is Str
            && resolved[j].1->Str_0.len() == 36) && (!(combo[j].1 is Generator) ==> resolved[j].1
            == combo[j].1))
}

/// The placeholders of a template that the variables in force give a value.
pub open spec fn spec_bound_placeholders(pv: Seq<Seq<char>>, merged: VarsModel) -> Seq<Seq<char>> {
    pv.filter(|p: Seq<char>| slookupm(merged, p) is Some)
}

/// The combinations an endpoint expands over: the product of its variables
/// restricted to its placeholders.
pub open spec fn spec_endpoint_combos(c: ConfigModel, e: EndpointModel) -> Seq<crate::vars::Combo> {
    crate::vars::spec_combos(
        spec_endpoint_vars(c, e).filter(
            |ent: (Seq<char>, crate::config::VarModel)|
                contains_str(spec_placeholders(e.endpoint), ent.0),
        ),
    )
}

/// Whether `name` can come out of expanding endpoint `e`: the raw template
/// when no placeholder is bound, else the template with one combination's
/// values (generators freshly drawn) substituted in.
pub open spec fn spec_candidate_name(c: ConfigModel, e: EndpointModel, name: Seq<char>) -> bool {
    let pv = spec_placeholders(e.endpoint);
    let merged = spec_endpoint_vars(c, e);
    let bound = spec_bound_placeholders(pv, merged);
    if bound.len() == 0 {
        name == e.endpoint
    } else {
        exists|k: int, resolved: crate::vars::Combo|
            0 <= k < spec_endpoint_combos(c, e).len() && #[trigger] is_draw_of(
                resolved,
                spec_endpoint_combos(c, e)[k],
            ) && name == spec_subst(e.endpoint, bound, resolved)
    }
}

/// What one request of a mapped job holds.
pub open spec fn spec_request_ok(
    c: ConfigModel,
    e: EndpointModel,
    name: Seq<char>,
    r: crate::request::RequestModel,
    d: int,
) -> bool {
    &&& url_join_of(spec_domain_url(c.domains[d]), name) == Some(r.uri)
    &&& r.http_method == (match e.http_method {
        Some(m) => m,
        None => HttpMethod::GET,
    })
    &&& r.body == e.body
    &&& (r.headers is Some <==> (spec_domain_headers(c.domains[d]) is Some || e.headers is Some))
    &&& r.status == crate::types::JobStatus::Pending
    &&& r.response is None
    &&& r.diffs.len() == 0
    &&& !r.has_diffs
    &&& r.job_duration is None
}

/// What the `k`-th job of endpoint `ei` holds: pending, the endpoint's
/// processor and builder, its name the raw template or the `k`-th
/// combination substituted in, and one fresh request per domain.
pub open spec fn spec_job_ok(c: ConfigModel, ei: int, k: int, job: crate::job::JobModel) -> bool {
    let e = c.endpoints[ei];
    let bound = spec_bound_placeholders(spec_placeholders(e.endpoint), spec_endpoint_vars(c, e));
    &&& job.status == crate::types::JobStatus::Pending
    &&& job.job_duration is None
    &&& job.response_processor == e.response_processor
    &&& job.request_builder == e.request_builder
    &&& (bound.len() == 0 ==> job.job_name == e.endpoint)
    &&& (bound.len() > 0 ==> exists|resolved: crate::vars::Combo|
        #[trigger] is_draw_of(resolved, spec_endpoint_combos(c, e)[k]) && job.job_name
            == spec_subst(e.endpoint, bound, resolved))
    &&& job.requests.len() == c.domains.len()
    &&& forall|d: int|
        0 <= d < c.domains.len() ==> spec_request_ok(c, e, job.job_name, #[trigger] job.requests[d], d)
}

/// Earlier endpoints' jobs come first: the count over a prefix never
/// shrinks.
pub proof fn lemma_job_count_mono(c: ConfigModel, a: int, b: int)
    requires
        a <= b,
    ensures
        spec_job_count(c, a) <= spec_job_count(c, b),
    decreases b - a,
{
    if a < b {
        lemma_job_count_mono(c, a, b - 1);
    }
}

/// Turns a configuration into its jobs: every endpoint yields one job per
/// combination of the variables its placeholders name, grouped by endpoint
/// in declaration order, each job with one pending request per domain; a
/// domain whose URL does not join with a job's name refuses the whole
/// configuration, and nothing else does.
pub fn map_configuration_to_jobs(configuration: &Configuration) -> (r: Result<Vec<Job>, AppError>)
    ensures
        match r {
            Ok(jobs) => jobs@.len() == spec_job_count(
                configuration@,
                configuration@.endpoints.len() as int,
            ) && forall|ei: int, k: int|
                0 <= ei < configuration@.endpoints.len() && 0 <= k < spec_endpoint_job_count(
                    configuration@,
                    configuration@.endpoints[ei],
                ) ==> spec_job_ok(
                    configuration@,
                    ei,
                    k,
                    (#[trigger] jobs@[spec_job_count(configuration@, ei) as int + k])@,
                ),
            Err(e) => e is FailedToParseConfig && (exists|ei: int, d: int, name: Seq<char>|
                0 <= ei < configuration@.endpoints.len() && 0 <= d
                    < configuration@.domains.len() && #[trigger] spec_candidate_name(
                    configuration@,
                    configuration@.endpoints[ei],
                    name,
                ) && #[trigger] url_join_of(
                    spec_domain_url(configuration@.domains[d]),
                    name,
                ) is None),
        },
        (forall|ei: int, d: int, name: Seq<char>|
            0 <= ei < configuration@.endpoints.len() && 0 <= d < configuration@.domains.len()
                && #[trigger] spec_candidate_name(
                configuration@,
                configuration@.endpoints[ei],
                name,
            ) ==> #[trigger] url_join_of(
                spec_domain_url(configuration@.domains[d]),
                name,
            ) is Some) ==> r is Ok,
{
    let ghost cfg = configuration@;
    let mut jobs: Vec<Job> = Vec::new();
    let ne = configuration.endpoints.len();
    let mut ei: usize = 0;
    while ei < ne
        invariant
            ne == configuration.endpoints@.len(),
            cfg == configuration@,
            0 <= ei <= ne,
            jobs@.len() == spec_job_count(cfg, ei as int),
            forall|e2: int, k: int|
                0 <= e2 < ei && 0 <= k < spec_endpoint_job_count(cfg, cfg.endpoints[e2])
                    ==> spec_job_ok(
                    cfg,
                    e2,
                    k,
                    (#[trigger] jobs@[spec_job_count(cfg, e2) as int + k])@,
                ),
        decreases ne - ei,
    {
        let endpoint_config = &configuration.endpoints[ei];
        let ghost em = endpoint_config@;
        let ghost base = spec_job_count(cfg, ei as int);
        let placeholders = get_placeholders_from_string(endpoint_config.endpoint.as_str());
        let ghost pv = placeholders.deep_view();
        let mut lookup: VariablesMap = StringMap { entries: Vec::new() };
        proof {
            assert(vars_model(lookup) =~= Seq::<(Seq<char>, crate::config::VarModel)>::empty());
        }
        if let Some(global_variables) = &configuration.variables {
            lookup.extend_with(global_variables);
        }
        if let Some(endpoint_variables) = &endpoint_config.variables {
            lookup.extend_with(endpoint_variables);
        }
        let ghost merged = vars_model(lookup);
        proof {
            assert(merged == spec_endpoint_vars(cfg, em)) by {
                assert(cfg.endpoints[ei as int] == em);
                match configuration.variables {
                    Some(g) => {
                    }
                    None => {
                    }
                }
            }
        }
        // the placeholders that some variable gives a value for
        let ghost bpred = |p: Seq<char>| slookupm(merged, p) is Some;
        let mut with_vars: Vec<String> = Vec::new();
        let np = placeholders.len();
        let mut pi: usize = 0;
        proof {
            reveal(Seq::filter);
            assert(pv.take(0) =~= Seq::<Seq<char>>::empty());
            assert(with_vars.deep_view() =~= pv.take(0).filter(bpred));
        }
        while pi < np
            invariant
                np == placeholders@.len(),
                pv == placeholders.deep_view(),
                merged == vars_model(lookup),
                bpred == (|p: Seq<char>| slookupm(merged, p) is Some),
                0 <= pi <= np,
                with_vars.deep_view() == pv.take(pi as int).filter(bpred),
            decreases np - pi,
        {
            let p = &placeholders[pi];
            let found = match lookup.get_value(p) {
                Some(_) => true,
                None => false,
            };
            proof {
                reveal(Seq::filter);
                crate::vars::lemma_key_index_model(lookup@, p@);
                assert(pv[pi as int] == p@);
                assert(pv.take(pi + 1) =~= pv.take(pi as int).push(p@));
                assert(pv.take(pi + 1).drop_last() =~= pv.take(pi as int));
                assert(pv.take(pi + 1).last() == p@);
                assert(bpred(p@) == found);
            }
            if found {
                with_vars.push(p.clone());
            }
            proof {
                assert(with_vars.deep_view() =~= pv.take(pi + 1).filter(bpred));
            }
            pi = pi + 1;
        }
        proof {
            assert(pv.take(np as int) =~= pv);
            assert(with_vars.deep_view() == spec_bound_placeholders(pv, merged));
            assert(spec_bound_placeholders(pv, merged) == spec_bound_placeholders(
                spec_placeholders(em.endpoint),
                spec_endpoint_vars(cfg, em),
            ));
        }
        let ghost bound = spec_bound_placeholders(
            spec_placeholders(em.endpoint),
            spec_endpoint_vars(cfg, em),
        );
        lookup.retain_keys(&placeholders);
        if with_vars.len() == 0 {
            proof {
                crate::vars::lemma_filter_all_out(pv, bpred);
                assert(bound.len() == 0);
                assert(spec_endpoint_job_count(cfg, em) == 1) by {
                    assert forall|p: int|
                        0 <= p < pv.len() implies !(slookupm(
                        spec_endpoint_vars(cfg, em),
                        #[trigger] pv[p],
                    ) is Some) by {
                        assert(!bpred(pv[p]));
                    }
                }
            }
            let job = match map_single_job(
                &configuration.domains,
                endpoint_config,
                &endpoint_config.endpoint,
            ) {
                Ok(j) => j,
                Err(e) => {
                    proof {
                        let dw = choose|d: int|
                            0 <= d < configuration.domains@.len() && url_join_of(
                                spec_domain_url(#[trigger] configuration.domains@[d]@),
                                endpoint_config.endpoint@,
                            ) is None;
                        assert(spec_candidate_name(cfg, cfg.endpoints[ei as int], em.endpoint));
                        assert(cfg.domains[dw] == configuration.domains@[dw]@);
                        assert(url_join_of(
                            spec_domain_url(cfg.domains[dw]),
                            em.endpoint,
                        ) is None);
                    }
                    return Err(e);
                }
            };
            let ghost jm = job@;
            let ghost jobs_before = jobs@;
            jobs.push(job);
            proof {
                assert(jobs@ =~= jobs_before.push(job));
                assert(spec_job_count(cfg, ei + 1) == spec_job_count(cfg, ei as int) + 1);
                assert(spec_job_ok(cfg, ei as int, 0, jm)) by {
                    assert forall|d: int|
                        0 <= d < cfg.domains.len() implies spec_request_ok(
                        cfg,
                        em,
                        jm.job_name,
                        #[trigger] jm.requests[d],
                        d,
                    ) by {
                        assert(cfg.domains[d] == configuration.domains@[d]@);
                    }
                }
                assert(jobs@[base as int]@ == jm);
                assert forall|e2: int, k: int|
                    0 <= e2 < ei + 1 && 0 <= k < spec_endpoint_job_count(cfg, cfg.endpoints[e2])
                        implies spec_job_ok(
                    cfg,
                    e2,
                    k,
                    (#[trigger] jobs@[spec_job_count(cfg, e2) as int + k])@,
                ) by {
                    if e2 < ei {
                        lemma_job_count_mono(cfg, e2 + 1, ei as int);
                        assert(spec_job_count(cfg, e2) + k < base);
                        assert(jobs@[spec_job_count(cfg, e2) as int + k] == jobs_before[spec_job_count(
                            cfg,
                            e2,
                        ) as int + k]);
                    } else {
                        assert(spec_job_count(cfg, e2) as int + k == base);
                    }
                }
            }
        } else {
            let combinations = flatten_variables_map(lookup);
            let ghost cms = crate::vars::combos_model(combinations@);
            proof {
                assert(cms == spec_endpoint_combos(cfg, em));
                assert(combinations@.len() == spec_endpoint_job_count(cfg, em)) by {
                    crate::vars::lemma_filter_all_out(pv, bpred);
                    assert(with_vars.deep_view().len() > 0);
                    let p0 = with_vars.deep_view()[0];
                    assert(exists|p: int|
                        0 <= p < pv.len() && slookupm(
                            spec_endpoint_vars(cfg, em),
                            #[trigger] pv[p],
                        ) is Some);
                }
                assert(bound.len() > 0);
            }
            let nc = combinations.len();
            let mut ci: usize = 0;
            while ci < nc
                invariant
                    nc == combinations@.len(),
                    cms == crate::vars::combos_model(combinations@),
                    cms == spec_endpoint_combos(cfg, em),
                    nc == spec_endpoint_job_count(cfg, em),
                    0 <= ci <= nc,
                    ne == configuration.endpoints@.len(),
                    cfg == configuration@,
                    0 <= ei < ne,
                    em == cfg.endpoints[ei as int],
                    em == endpoint_config@,
                    base == spec_job_count(cfg, ei as int),
                    bound == spec_bound_placeholders(
                        spec_placeholders(em.endpoint),
                        spec_endpoint_vars(cfg, em),
                    ),
                    bound.len() > 0,
                    with_vars.deep_view() == bound,
                    endpoint_config.endpoint@ == em.endpoint,
                    jobs@.len() == base + ci,
                    forall|e2: int, k: int|
                        0 <= e2 < ei && 0 <= k < spec_endpoint_job_count(cfg, cfg.endpoints[e2])
                            ==> spec_job_ok(
                            cfg,
                            e2,
                            k,
                            (#[trigger] jobs@[spec_job_count(cfg, e2) as int + k])@,
                        ),
                    forall|k: int|
                        0 <= k < ci ==> spec_job_ok(
                            cfg,
                            ei as int,
                            k,
                            (#[trigger] jobs@[base as int + k])@,
                        ),
                decreases nc - ci,
            {
                let combination = &combinations[ci];
                // draw every generator before substituting, so the name is
                // the template with this combination's resolved values
                let mut resolved_entries: Vec<(String, PathVariableValue)> = Vec::new();
                let centries = combination.entries.len();
                let mut j: usize = 0;
                while j < centries
                    invariant
                        centries == combination@.len(),
                        0 <= j <= centries,
                        resolved_entries@.len() == j,
                        forall|q: int|
                            0 <= q < j ==> (#[trigger] resolved_entries@[q]).0@
                                == combination@[q].0@,
                        forall|q: int|
                            0 <= q < j ==> ((combination@[q].1@ is Generator ==> (
                            #[trigger] resolved_entries@[q]).1@ is Str
                                && resolved_entries@[q].1@->Str_0.len() == 36) && (!(
                            combination@[q].1@ is Generator) ==> resolved_entries@[q].1@
                                == combination@[q].1@)),
                    decreases centries - j,
                {
                    let entry = &combination.entries[j];
                    match &entry.1 {
                        PathVariableValue::Generator(_) => {
                            resolved_entries.push(
                                (entry.0.clone(), PathVariableValue::String(generate_uuid())),
                            );
                        }
                        _ => {
                            resolved_entries.push((entry.0.clone(), entry.1.clone()));
                        }
                    }
                    j = j + 1;
                }
                let resolved: PlaceholderToValueMap = StringMap { entries: resolved_entries };
                let ghost rm = crate::vars::combo_model(resolved@);
                proof {
                    assert(cms[ci as int] == crate::vars::combo_model(combination@));
                    assert(is_draw_of(rm, cms[ci as int]));
                }
                let mut formatted = endpoint_config.endpoint.clone();
                let ghost wv = with_vars.deep_view();
                let nw = with_vars.len();
                let mut wi: usize = 0;
                proof {
                    assert(wv.skip(0) =~= wv);
                }
                while wi < nw
                    invariant
                        nw == with_vars@.len(),
                        wv == with_vars.deep_view(),
                        rm == crate::vars::combo_model(resolved@),
                        0 <= wi <= nw,
                        spec_subst(em.endpoint, wv, rm) == spec_subst(
                            formatted@,
                            wv.skip(wi as int),
                            rm,
                        ),
                    decreases nw - wi,
                {
                    let placeholder = &with_vars[wi];
                    proof {
                        crate::vars::lemma_lookup_combo(resolved@, placeholder@);
                        assert(wv.skip(wi as int)[0] == placeholder@);
                        assert(wv.skip(wi as int).skip(1) =~= wv.skip(wi + 1));
                    }
                    match resolved.get_value(placeholder) {
                        None => {
                            proof {
                                assert(slookupm(rm, placeholder@) is None);
                            }
                        }
                        Some(value) => {
                            let replacement = value_for_replacement(value);
                            proof {
                                assert(slookupm(rm, placeholder@) == Some(value@));
                            }
                            formatted = replace_placeholder_with_value(
                                formatted.as_str(),
                                placeholder.as_str(),
                                replacement.as_str(),
                            );
                        }
                    }
                    wi = wi + 1;
                }
                proof {
                    assert(wv.skip(nw as int) =~= Seq::<Seq<char>>::empty());
                    assert(formatted@ == spec_subst(em.endpoint, wv, rm));
                }
                let job = match map_single_job(
                    &configuration.domains,
                    endpoint_config,
                    &formatted,
                ) {
                    Ok(j) => j,
                    Err(e) => {
                        proof {
                            let dw = choose|d: int|
                                0 <= d < configuration.domains@.len() && url_join_of(
                                    spec_domain_url(#[trigger] configuration.domains@[d]@),
                                    formatted@,
                                ) is None;
                            assert(is_draw_of(rm, spec_endpoint_combos(cfg, em)[ci as int]));
                            assert(spec_candidate_name(cfg, cfg.endpoints[ei as int], formatted@));
                            assert(cfg.domains[dw] == configuration.domains@[dw]@);
                            assert(url_join_of(
                                spec_domain_url(cfg.domains[dw]),
                                formatted@,
                            ) is None);
                        }
                        return Err(e);
                    }
                };
                let ghost jm = job@;
                let ghost jobs_before = jobs@;
                jobs.push(job);
                proof {
                    assert(jobs@ =~= jobs_before.push(job));
                    assert(spec_job_ok(cfg, ei as int, ci as int, jm)) by {
                        assert(is_draw_of(rm, spec_endpoint_combos(cfg, em)[ci as int]));
                        assert(jm.job_name == spec_subst(em.endpoint, bound, rm));
                        assert forall|d: int|
                            0 <= d < cfg.domains.len() implies spec_request_ok(
                            cfg,
                            em,
                            jm.job_name,
                            #[trigger] jm.requests[d],
                            d,
                        ) by {
                            assert(cfg.domains[d] == configuration.domains@[d]@);
                            assert(url_join_of(spec_domain_url(cfg.domains[d]), jm.job_name)
                                == Some(jm.requests[d].uri));
                            assert(jm.requests[d].body == em.body);
                            assert(jm.requests[d].job_duration is None);
                        }
                    }
                    assert(jobs@[base as int + ci]@ == jm);
                    assert forall|k: int|
                        0 <= k < ci + 1 implies spec_job_ok(
                        cfg,
                        ei as int,
                        k,
                        (#[trigger] jobs@[base as int + k])@,
                    ) by {
                        if k < ci {
                            assert(jobs@[base as int + k] == jobs_before[base as int + k]);
                        }
                    }
                    assert forall|e2: int, k2: int|
                        0 <= e2 < ei && 0 <= k2 < spec_endpoint_job_count(cfg, cfg.endpoints[e2])
                            implies spec_job_ok(
                        cfg,
                        e2,
                        k2,
                        (#[trigger] jobs@[spec_job_count(cfg, e2) as int + k2])@,
                    ) by {
                        lemma_job_count_mono(cfg, e2 + 1, ei as int);
                        assert(spec_job_count(cfg, e2) as int + k2 < base);
                        assert(jobs@[spec_job_count(cfg, e2) as int + k2] == jobs_before[spec_job_count(
                            cfg,
                            e2,
                        ) as int + k2]);
                    }
                }
                ci = ci + 1;
            }
            proof {
                assert(spec_job_count(cfg, ei + 1) == spec_job_count(cfg, ei as int)
                    + spec_endpoint_job_count(cfg, em));
                assert forall|e2: int, k: int|
                    0 <= e2 < ei + 1 && 0 <= k < spec_endpoint_job_count(cfg, cfg.endpoints[e2])
                        implies spec_job_ok(
                    cfg,
                    e2,
                    k,
                    (#[trigger] jobs@[spec_job_count(cfg, e2) as int + k])@,
                ) by {
                    if e2 < ei {
                        lemma_job_count_mono(cfg, e2 + 1, ei as int);
                    }
                }
            }
        }
        ei = ei + 1;
    }
    proof {
        assert(ei as int == cfg.endpoints.len() as int);
    }
    Ok(jobs)
}

} // verus!
