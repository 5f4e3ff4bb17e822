//! Fetching model catalogs: what to ask an upstream provider (or the
//! official host's language server) for, and what its answer means. The
//! requests themselves are sent by the application.

use crate::domain::config::{fault_text, ipv4_loopback, is_ipv4_loopback, provider_alone_fault, validate_provider_alone};
use crate::domain::error::{ErrorCategory, ProxyError};
use crate::domain::provider::{pairs_view, Provider, ProviderProtocol};
use crate::json::{json_parse_result, parse_json};
use crate::providers::catalog::official::LanguageServerProcess;
use crate::providers::catalog::parser::{
    is_permutation, kept, model_at, official_entries, official_model_from, parse_catalog_models_with_context,
    parse_official_catalog_models, sorted_by_id, spec_catalog_items,
};
use crate::providers::catalog::ProviderCatalogModel;
use crate::providers::{build_provider_headers, protocol_headers};
use crate::text::{
    chars_of, decimal, lemma_seq_lt_irreflexive, lemma_seq_lt_transitive, lemma_seq_lt_trichotomy, push_decimal,
    push_str, seq_lt, str_lt, string_from_chars, to_lowercase, trim, trim_end_char, trim_start_char, unicode_lower,
};
use crate::url::{append_url_pair, parse_route, url_route, url_with_pair, UrlRoute, UrlRouteView};
use vstd::prelude::*;

verus! {

/// The longest a catalog request may take, in milliseconds.
pub const CATALOG_TIMEOUT_MS: u64 = 15000;

/// The port a local CPA gateway serves its catalog on.
pub const CPA_CATALOG_PORT: u16 = 8317;

/// The error category of a failed catalog response.
pub open spec fn spec_catalog_error_category(status: u16) -> ErrorCategory {
    if status == 401 || status == 403 {
        ErrorCategory::Authentication
    } else if status == 404 {
        ErrorCategory::ModelNotFound
    } else if status == 429 {
        ErrorCategory::RateLimit
    } else if 500 <= status <= 599 {
        ErrorCategory::UpstreamServerError
    } else {
        ErrorCategory::InvalidRequest
    }
}

pub fn catalog_error_category(status: u16) -> (r: ErrorCategory)
    ensures
        r == spec_catalog_error_category(status),
{
    if status == 401 || status == 403 {
        ErrorCategory::Authentication
    } else if status == 404 {
        ErrorCategory::ModelNotFound
    } else if status == 429 {
        ErrorCategory::RateLimit
    } else if 500 <= status && status <= 599 {
        ErrorCategory::UpstreamServerError
    } else {
        ErrorCategory::InvalidRequest
    }
}

/// A host that is this machine, once brackets are stripped: `localhost`,
/// an IPv4 address in `127.0.0.0/8`, or `::1` (the only way the URL parser
/// writes the IPv6 loopback address).
pub open spec fn cpa_host(h: Seq<char>) -> bool {
    let n = trim_end_char(trim_start_char(h, '['), ']');
    n == "localhost"@ || ipv4_loopback(n) || n == "::1"@
}

/// A catalog served by a local CPA gateway: port 8317 on this machine.
pub open spec fn spec_is_cpa(u: UrlRouteView) -> bool {
    &&& u.port == Some(CPA_CATALOG_PORT)
    &&& u.host matches Some(h) && cpa_host(h)
}

/// Whether a parsed catalog URL points at a local CPA gateway.
pub fn is_cpa_catalog_endpoint(endpoint: &UrlRoute) -> (r: bool)
    ensures
        r == spec_is_cpa(endpoint@),
{
    proof {
        reveal_strlit("localhost");
        reveal_strlit("::1");
    }
    let host_is_loopback = match &endpoint.host {
        Some(h) => {
            let hc = chars_of(h.as_str());
            let n = crate::text::trim_char_ends(hc.as_slice(), '[', ']');
            crate::text::chars_eq_str(n.as_slice(), "localhost") || is_ipv4_loopback(n.as_slice())
                || crate::text::chars_eq_str(n.as_slice(), "::1")
        },
        None => false,
    };
    let on_port = match endpoint.port {
        Some(p) => p == CPA_CATALOG_PORT,
        None => false,
    };
    on_port && host_is_loopback
}

/// Some query pair is named `name`.
pub open spec fn has_pair_named(pairs: Seq<(Seq<char>, Seq<char>)>, name: Seq<char>) -> bool {
    exists|i: int| 0 <= i < pairs.len() && #[trigger] pairs[i].0 == name
}

/// A CPA catalog URL without a `client_version` pair gets `client_version=1`.
pub open spec fn spec_needs_client_version(u: UrlRouteView) -> bool {
    spec_is_cpa(u) && !has_pair_named(u.query_pairs, "client_version"@)
}

/// Whether a parsed catalog URL needs the `client_version=1` pair.
pub fn needs_client_version(endpoint: &UrlRoute) -> (r: bool)
    ensures
        r == spec_needs_client_version(endpoint@),
{
    if !is_cpa_catalog_endpoint(endpoint) {
        return false;
    }
    let mut i: usize = 0;
    while i < endpoint.query_pairs.len()
        invariant
            i <= endpoint.query_pairs@.len(),
            forall|j: int| 0 <= j < i ==> (#[trigger] endpoint@.query_pairs[j]).0 != "client_version"@,
        decreases endpoint.query_pairs.len() - i,
    {
        if crate::text::str_eq(endpoint.query_pairs[i].0.as_str(), "client_version") {
            assert(endpoint@.query_pairs[i as int].0 == "client_version"@);
            return false;
        }
        i += 1;
    }
    true
}

/// The URL a catalog is fetched from: the models endpoint as the URL parser
/// writes it, with `client_version=1` appended for a CPA gateway that was
/// given no version; or the parse error.
pub open spec fn spec_catalog_models_url(endpoint: Seq<char>) -> Result<Seq<char>, Seq<char>> {
    match url_route(endpoint) {
        Err(e) => Err(e),
        Ok(u) => Ok(
            if spec_needs_client_version(u) {
                url_with_pair(endpoint, "client_version"@, "1"@)
            } else {
                u.serialized
            },
        ),
    }
}

pub open spec fn invalid_catalog_url(e: ProxyError, detail: Seq<char>) -> bool {
    &&& e.category == ErrorCategory::InvalidRequest
    &&& e.status_code == 400
    &&& e.message@ == "模型目录地址无效："@ + detail
    &&& e.upstream_body is None
}

/// The URL to fetch `provider`'s catalog from.
pub fn catalog_models_url(provider: &Provider) -> (r: Result<String, ProxyError>)
    ensures
        match spec_catalog_models_url(provider.models_endpoint@) {
            Ok(s) => r matches Ok(t) && t@ == s,
            Err(d) => r matches Err(e) && invalid_catalog_url(e, d),
        },
{
    let text = provider.models_endpoint.as_str();
    match parse_route(text) {
        Err(d) => {
            let message = crate::text::concat2("模型目录地址无效：", d.as_str());
            Err(ProxyError::new(ErrorCategory::InvalidRequest, message.as_str(), 400))
        },
        Ok(u) => {
            if needs_client_version(&u) {
                match append_url_pair(text, "client_version", "1") {
                    Some(s) => Ok(s),
                    None => Err(ProxyError::new(ErrorCategory::InvalidRequest, "模型目录地址无效", 400)),
                }
            } else {
                Ok(u.serialized)
            }
        },
    }
}

/// A catalog request to send.
pub struct CatalogRequest {
    pub url: String,
    pub connect_timeout_ms: u64,
    pub timeout_ms: u64,
    pub headers: Vec<(String, String)>,
    /// The catalog is a local CPA gateway's (its entries are read accordingly).
    pub is_cpa_catalog: bool,
}

pub open spec fn min_u64(a: u64, b: u64) -> u64 {
    if a <= b {
        a
    } else {
        b
    }
}

/// The request for `provider`'s catalog, or why there is none: the provider
/// must be valid on its own, have a models endpoint, and that endpoint must
/// parse. The timeout is the provider's, at most 15 s; the connect timeout
/// is the provider's, at most the timeout; the headers are its protocol's.
pub open spec fn catalog_request_ok(provider: Provider, r: CatalogRequest) -> bool {
    let timeout = min_u64(provider.request_timeout_ms, CATALOG_TIMEOUT_MS);
    &&& spec_catalog_models_url(provider.models_endpoint@) == Ok::<Seq<char>, Seq<char>>(r.url@)
    &&& r.timeout_ms == timeout
    &&& r.connect_timeout_ms == min_u64(provider.connect_timeout_ms, timeout)
    &&& pairs_view(r.headers@) == protocol_headers(provider)
    &&& r.is_cpa_catalog == (url_route(provider.models_endpoint@) matches Ok(u) && spec_is_cpa(u))
}

pub open spec fn refused(e: ProxyError, message: Seq<char>) -> bool {
    &&& e.category == ErrorCategory::InvalidRequest
    &&& e.status_code == 400
    &&& e.message@ == message
    &&& e.upstream_body is None
}

/// What to send to fetch a draft provider's catalog, so that a connection
/// can be checked before the provider is saved.
pub fn catalog_request(provider: &Provider) -> (r: Result<CatalogRequest, ProxyError>)
    ensures
        match provider_alone_fault(*provider) {
            Some(f) => r matches Err(e) && refused(e, fault_text(f)),
            None => if trim(provider.models_endpoint@).len() == 0 {
                r matches Err(e) && refused(e, "模型列表地址不能为空"@)
            } else {
                match spec_catalog_models_url(provider.models_endpoint@) {
                    Err(d) => r matches Err(e) && invalid_catalog_url(e, d),
                    Ok(_) => r matches Ok(req) && catalog_request_ok(*provider, req),
                }
            },
        },
{
    match validate_provider_alone(provider) {
        Ok(()) => {},
        Err(error) => {
            let message = error.describe();
            return Err(ProxyError::new(ErrorCategory::InvalidRequest, message.as_str(), 400));
        },
    }
    let ep = chars_of(provider.models_endpoint.as_str());
    let (start, end) = crate::text::trim_bounds(ep.as_slice());
    if start >= end {
        return Err(ProxyError::new(ErrorCategory::InvalidRequest, "模型列表地址不能为空", 400));
    }
    let timeout_ms = if provider.request_timeout_ms <= CATALOG_TIMEOUT_MS {
        provider.request_timeout_ms
    } else {
        CATALOG_TIMEOUT_MS
    };
    let connect_timeout_ms = if provider.connect_timeout_ms <= timeout_ms {
        provider.connect_timeout_ms
    } else {
        timeout_ms
    };
    let url = match catalog_models_url(provider) {
        Ok(u) => u,
        Err(e) => {
            return Err(e);
        },
    };
    let is_cpa_catalog = match parse_route(provider.models_endpoint.as_str()) {
        Ok(u) => is_cpa_catalog_endpoint(&u),
        Err(_) => false,
    };
    let headers = build_provider_headers(provider);
    Ok(CatalogRequest { url, connect_timeout_ms, timeout_ms, headers, is_cpa_catalog })
}

/// The key a catalog is sorted by: the display name, lowercased.
pub open spec fn display_key(m: ProviderCatalogModel) -> Seq<char> {
    unicode_lower(m.display_name@)
}

/// `ms` is `src` in the order `perm`, sorted by display key, with models of
/// equal key in their order in `src`.
pub open spec fn stably_sorted_from(ms: Seq<ProviderCatalogModel>, src: Seq<ProviderCatalogModel>, perm: Seq<int>) -> bool {
    &&& ms.len() == src.len()
    &&& is_permutation(perm, src.len() as int)
    &&& forall|j: int| 0 <= j < ms.len() ==> #[trigger] ms[j] == src[perm[j]]
    &&& forall|a: int, b: int|
        0 <= a < b < ms.len() ==> !seq_lt(display_key(#[trigger] ms[b]), display_key(#[trigger] ms[a]))
    &&& forall|a: int, b: int|
        0 <= a < b < ms.len() && display_key(ms[a]) == display_key(ms[b]) ==> #[trigger] perm[a] < #[trigger] perm[b]
}

/// Sorts models by lowercased display name, keeping the order of equal names.
pub fn sort_by_display_name(models: Vec<ProviderCatalogModel>) -> (r: Vec<ProviderCatalogModel>)
    ensures
        exists|perm: Seq<int>| stably_sorted_from(r@, models@, perm),
{
    let ghost src = models@;
    let n = models.len();
    let mut rest = models;
    let mut out: Vec<ProviderCatalogModel> = Vec::new();
    let mut keys: Vec<String> = Vec::new();
    let ghost mut perm: Seq<int> = Seq::empty();
    let mut i: usize = 0;
    assert(src.skip(0) =~= src);
    while i < n
        invariant
            n == src.len(),
            i <= n,
            rest@ == src.skip(i as int),
            out@.len() == i,
            keys@.len() == i,
            perm.len() == i,
            forall|j: int| 0 <= j < i ==> (#[trigger] keys@[j])@ == display_key(out@[j]),
            forall|j: int| 0 <= j < i ==> 0 <= #[trigger] perm[j] < i && out@[j] == src[perm[j]],
            forall|a: int, b: int| 0 <= a < b < i ==> #[trigger] perm[a] != #[trigger] perm[b],
            forall|a: int, b: int| 0 <= a < b < i ==> !seq_lt((#[trigger] keys@[b])@, (#[trigger] keys@[a])@),
            forall|a: int, b: int|
                0 <= a < b < i && keys@[a]@ == keys@[b]@ ==> #[trigger] perm[a] < #[trigger] perm[b],
        decreases n - i,
    {
        assert(rest@.len() > 0);
        let model = rest.remove(0);
        assert(rest@ =~= src.skip(i + 1));
        let key = to_lowercase(model.display_name.as_str());
        let mut k: usize = 0;
        while k < out.len() && !str_lt(key.as_str(), keys[k].as_str())
            invariant
                k <= out@.len(),
                keys@.len() == out@.len(),
                forall|j: int| 0 <= j < k ==> !seq_lt(key@, (#[trigger] keys@[j])@),
            decreases out.len() - k,
        {
            k += 1;
        }
        let ghost old_keys = keys@;
        let ghost old_out = out@;
        let ghost old_perm = perm;
        let ghost gk = key@;
        assert(k < old_out.len() ==> seq_lt(gk, old_keys[k as int]@));
        out.insert(k, model);
        keys.insert(k, key);
        proof {
            perm = old_perm.insert(k as int, i as int);
            assert forall|a: int, b: int| 0 <= a < b < i + 1 implies !seq_lt(
                (#[trigger] keys@[b])@,
                (#[trigger] keys@[a])@,
            ) && (keys@[a]@ == keys@[b]@ ==> perm[a] < perm[b]) by {
                if b < k {
                    assert(keys@[a] == old_keys[a] && keys@[b] == old_keys[b]);
                    assert(perm[a] == old_perm[a] && perm[b] == old_perm[b]);
                } else if b == k {
                    assert(keys@[a] == old_keys[a] && keys@[b]@ == gk);
                    assert(perm[a] == old_perm[a] && perm[b] == i);
                } else if a < k {
                    assert(keys@[a] == old_keys[a] && keys@[b] == old_keys[b - 1]);
                    assert(perm[a] == old_perm[a] && perm[b] == old_perm[b - 1]);
                } else if a == k {
                    assert(keys@[a]@ == gk && keys@[b] == old_keys[b - 1]);
                    assert(perm[a] == i && perm[b] == old_perm[b - 1]);
                    let kb = old_keys[b - 1]@;
                    let kk = old_keys[k as int]@;
                    if b - 1 > k {
                        assert(!seq_lt(kb, kk));
                    }
                    if seq_lt(kb, gk) {
                        if b - 1 == k {
                            lemma_seq_lt_trichotomy(gk, kk);
                        } else {
                            lemma_seq_lt_transitive(kb, gk, kk);
                        }
                    }
                    if kb == gk {
                        if b - 1 == k {
                            lemma_seq_lt_irreflexive(gk);
                        } else {
                            assert(seq_lt(kb, kk));
                        }
                    }
                } else {
                    assert(keys@[a] == old_keys[a - 1] && keys@[b] == old_keys[b - 1]);
                    assert(perm[a] == old_perm[a - 1] && perm[b] == old_perm[b - 1]);
                }
            }
            assert forall|j: int| 0 <= j < i + 1 implies (#[trigger] keys@[j])@ == display_key(out@[j]) by {
                if j < k {
                    assert(keys@[j] == old_keys[j] && out@[j] == old_out[j]);
                } else if j > k {
                    assert(keys@[j] == old_keys[j - 1] && out@[j] == old_out[j - 1]);
                }
            }
            assert forall|j: int| 0 <= j < i + 1 implies 0 <= #[trigger] perm[j] < i + 1 && out@[j] == src[perm[j]] by {
                if j < k {
                    assert(perm[j] == old_perm[j] && out@[j] == old_out[j]);
                } else if j > k {
                    assert(perm[j] == old_perm[j - 1] && out@[j] == old_out[j - 1]);
                } else {
                    assert(src.skip(i as int)[0] == src[i as int]);
                }
            }
            assert forall|a: int, b: int| 0 <= a < b < i + 1 implies #[trigger] perm[a] != #[trigger] perm[b] by {
                let pa = if a < k { a } else if a == k { -1 } else { a - 1 };
                let pb = if b < k { b } else if b == k { -1 } else { b - 1 };
                if pa >= 0 {
                    assert(perm[a] == old_perm[pa]);
                }
                if pb >= 0 {
                    assert(perm[b] == old_perm[pb]);
                }
            }
        }
        i += 1;
    }
    proof {
        assert forall|a: int, b: int| 0 <= a < b < out@.len() implies !seq_lt(
            display_key(#[trigger] out@[b]),
            display_key(#[trigger] out@[a]),
        ) by {
            assert(keys@[a]@ == display_key(out@[a]) && keys@[b]@ == display_key(out@[b]));
        }
        assert forall|a: int, b: int|
            0 <= a < b < out@.len() && display_key(out@[a]) == display_key(out@[b]) implies #[trigger] perm[a]
            < #[trigger] perm[b] by {
            assert(keys@[a]@ == display_key(out@[a]) && keys@[b]@ == display_key(out@[b]));
        }
        assert(stably_sorted_from(out@, src, perm));
    }
    out
}

/// The models of a catalog answer: one per entry `kept` names, each read
/// as `model_at` says, in a stable order of lowercased display name.
pub open spec fn catalog_models_ok(
    ms: Seq<ProviderCatalogModel>,
    payload: crate::json::Json,
    protocol: ProviderProtocol,
    is_cpa_catalog: bool,
) -> bool {
    let items = spec_catalog_items(payload);
    let k = kept(items, protocol).0;
    exists|perm: Seq<int>|
        {
            &&& is_permutation(perm, k.len() as int)
            &&& ms.len() == k.len()
            &&& forall|j: int| 0 <= j < ms.len() ==> model_at(#[trigger] ms[j], items, k[perm[j]], protocol, is_cpa_catalog)
            &&& forall|a: int, b: int|
                0 <= a < b < ms.len() ==> !seq_lt(display_key(#[trigger] ms[b]), display_key(#[trigger] ms[a]))
            &&& forall|a: int, b: int|
                0 <= a < b < ms.len() && display_key(ms[a]) == display_key(ms[b]) ==> #[trigger] perm[a]
                    < #[trigger] perm[b]
        }
}

pub open spec fn failed(e: ProxyError, category: ErrorCategory, message: Seq<char>, status: u16) -> bool {
    &&& e.category == category
    &&& e.status_code == status
    &&& e.message@ == message
    &&& e.upstream_body is None
}

/// Reads a provider's answer to a catalog request: an HTTP error status, a
/// body that is not JSON, or a catalog without any model is an error; else
/// the models, sorted by display name.
pub fn catalog_response_models(status: u16, body: &str, protocol: ProviderProtocol, is_cpa_catalog: bool) -> (r: Result<
    Vec<ProviderCatalogModel>,
    ProxyError,
>)
    ensures
        status >= 400 ==> (r matches Err(e) && failed(
            e,
            spec_catalog_error_category(status),
            "模型目录返回 HTTP "@ + decimal(status as nat),
            status,
        )),
        status < 400 ==> match json_parse_result(body@) {
            Err(m) => r matches Err(e) && failed(e, ErrorCategory::Internal, "模型目录不是有效 JSON："@ + m, 500),
            Ok(v) => if kept(spec_catalog_items(v), protocol).0.len() == 0 {
                r matches Err(e) && failed(e, ErrorCategory::Internal, "响应中没有可识别的模型列表"@, 500)
            } else {
                r matches Ok(ms) && catalog_models_ok(ms@, v, protocol, is_cpa_catalog)
            },
        },
{
    if status >= 400 {
        let mut buf: Vec<char> = Vec::new();
        push_str(&mut buf, "模型目录返回 HTTP ");
        push_decimal(&mut buf, status as u64);
        let message = string_from_chars(buf.as_slice());
        return Err(ProxyError::new(catalog_error_category(status), message.as_str(), status));
    }
    let payload = match parse_json(body) {
        Ok(v) => v,
        Err(m) => {
            let message = crate::text::concat2("模型目录不是有效 JSON：", m.as_str());
            return Err(ProxyError::new(ErrorCategory::Internal, message.as_str(), 500));
        },
    };
    let models = parse_catalog_models_with_context(&payload, protocol, is_cpa_catalog);
    if models.len() == 0 {
        return Err(ProxyError::new(ErrorCategory::Internal, "响应中没有可识别的模型列表", 500));
    }
    let ghost parsed = models@;
    let sorted = sort_by_display_name(models);
    proof {
        let items = spec_catalog_items(payload@);
        let k = kept(items, protocol).0;
        let perm = choose|perm: Seq<int>| stably_sorted_from(sorted@, parsed, perm);
        assert forall|j: int| 0 <= j < sorted@.len() implies model_at(
            #[trigger] sorted@[j],
            items,
            k[perm[j]],
            protocol,
            is_cpa_catalog,
        ) by {
            assert(sorted@[j] == parsed[perm[j]]);
            assert(0 <= perm[j] < parsed.len());
        }
    }
    Ok(sorted)
}

/// The address of the official host's catalog on its language server.
pub open spec fn spec_official_models_url(port: u16) -> Seq<char> {
    "https://127.0.0.1:"@ + decimal(port as nat) + "/exa.language_server_pb.LanguageServerService/GetAvailableModels"@
}

pub fn official_models_url(port: u16) -> (r: String)
    ensures
        r@ == spec_official_models_url(port),
{
    let mut buf: Vec<char> = Vec::new();
    push_str(&mut buf, "https://127.0.0.1:");
    push_decimal(&mut buf, port as u64);
    push_str(&mut buf, "/exa.language_server_pb.LanguageServerService/GetAvailableModels");
    string_from_chars(buf.as_slice())
}

/// The first running language server that states a listening port:
/// that port and its CSRF token.
pub open spec fn spec_official_target(ps: Seq<LanguageServerProcess>) -> Option<(u16, Seq<char>)>
    decreases ps.len(),
{
    if ps.len() == 0 {
        None
    } else {
        match ps[0].configured_port {
            Some(p) => if p > 0 {
                Some((p, ps[0].csrf@))
            } else {
                spec_official_target(ps.drop_first())
            },
            None => spec_official_target(ps.drop_first()),
        }
    }
}

/// The language server to ask for the official catalog, or the error that
/// none is running.
pub fn official_catalog_target(processes: &Vec<LanguageServerProcess>) -> (r: Result<(u16, String), ProxyError>)
    ensures
        match spec_official_target(processes@) {
            Some(t) => r matches Ok(x) && x.0 == t.0 && x.1@ == t.1,
            None => r matches Err(e) && failed(
                e,
                ErrorCategory::InvalidRequest,
                "未找到直连后台运行的 Antigravity 语言服务，请确保应用正处于开启状态。"@,
                404,
            ),
        },
{
    let mut i: usize = 0;
    assert(processes@.skip(0) =~= processes@);
    while i < processes.len()
        invariant
            i <= processes@.len(),
            spec_official_target(processes@.skip(i as int)) == spec_official_target(processes@),
        decreases processes.len() - i,
    {
        assert(processes@.skip(i as int).drop_first() =~= processes@.skip(i + 1));
        assert(processes@.skip(i as int)[0] == processes@[i as int]);
        match processes[i].configured_port {
            Some(p) => {
                if p > 0 {
                    return Ok((p, crate::text::owned(processes[i].csrf.as_str())));
                }
            },
            None => {},
        }
        i += 1;
    }
    Err(
        ProxyError::new(
            ErrorCategory::InvalidRequest,
            "未找到直连后台运行的 Antigravity 语言服务，请确保应用正处于开启状态。",
            404,
        ),
    )
}

/// Reads the language server's answer: text that is not JSON, or JSON
/// without any model, is an error; else the official catalog.
pub fn official_catalog_response(body: &str) -> (r: Result<Vec<ProviderCatalogModel>, ProxyError>)
    ensures
        match json_parse_result(body@) {
            Err(m) => r matches Err(e) && failed(e, ErrorCategory::UpstreamServerError, "解析 JSON 响应失败: "@ + m, 502),
            Ok(v) => if official_entries(v).len() == 0 {
                r matches Err(e) && failed(
                    e,
                    ErrorCategory::UpstreamServerError,
                    "未从直连响应中找到有效的 models 节点"@,
                    502,
                )
            } else {
                r matches Ok(ms) && ms@.len() == official_entries(v).len() && sorted_by_id(ms@) && exists|perm: Seq<int>|
                    is_permutation(perm, official_entries(v).len() as int) && forall|j: int|
                        0 <= j < ms@.len() ==> #[trigger] official_model_from(
                            ms@[j],
                            official_entries(v)[perm[j]].0,
                            official_entries(v)[perm[j]].1,
                        )
            },
        },
{
    let payload = match parse_json(body) {
        Ok(v) => v,
        Err(m) => {
            let message = crate::text::concat2("解析 JSON 响应失败: ", m.as_str());
            return Err(ProxyError::new(ErrorCategory::UpstreamServerError, message.as_str(), 502));
        },
    };
    let models = parse_official_catalog_models(&payload);
    if models.len() == 0 {
        return Err(ProxyError::new(ErrorCategory::UpstreamServerError, "未从直连响应中找到有效的 models 节点", 502));
    }
    Ok(models)
}

} // verus!
