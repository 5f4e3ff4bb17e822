//! URLs: the parts the proxy reads and the rewrites it makes. Parsing,
//! percent-encoding and serialisation are the `url` crate's (re-exported by
//! reqwest); the contracts name their results.

use vstd::prelude::*;

verus! {

/// The parts of a parsed URL the proxy reads.
pub struct UrlRoute {
    /// The URL as the parser serialises it.
    pub serialized: String,
    pub scheme: String,
    pub username: String,
    pub password: Option<String>,
    pub fragment: Option<String>,
    pub host: Option<String>,
    /// The port, or the scheme's default port.
    pub port: Option<u16>,
    pub path: String,
    /// The query as decoded name/value pairs.
    pub query_pairs: Vec<(String, String)>,
}

pub struct UrlRouteView {
    pub serialized: Seq<char>,
    pub scheme: Seq<char>,
    pub username: Seq<char>,
    pub password: Option<Seq<char>>,
    pub fragment: Option<Seq<char>>,
    pub host: Option<Seq<char>>,
    pub port: Option<u16>,
    pub path: Seq<char>,
    pub query_pairs: Seq<(Seq<char>, Seq<char>)>,
}

pub open spec fn pairs_view(v: Seq<(String, String)>) -> Seq<(Seq<char>, Seq<char>)> {
    Seq::new(v.len(), |i: int| (v[i].0@, v[i].1@))
}

impl View for UrlRoute {
    type V = UrlRouteView;

    open spec fn view(&self) -> UrlRouteView {
        UrlRouteView {
            serialized: self.serialized@,
            scheme: self.scheme@,
            username: self.username@,
            password: crate::text::opt_view(self.password),
            fragment: crate::text::opt_view(self.fragment),
            host: crate::text::opt_view(self.host),
            port: self.port,
            path: self.path@,
            query_pairs: pairs_view(self.query_pairs@),
        }
    }
}

/// What `url::Url::parse` makes of a text: the parts read, or the text of
/// its parse error.
pub uninterp spec fn url_route(text: Seq<char>) -> Result<UrlRouteView, Seq<char>>;

/// `reqwest::Url::parse` (the `url` crate), with `to_string`, `scheme`,
/// `username`, `password`, `fragment`, `host_str`, `port_or_known_default`,
/// `path` and `query_pairs` of the result, or the `Display` text of the
/// error. The contract only names the result: it is a function of the text.
#[verifier::external_body]
pub(crate) fn parse_route(text: &str) -> (r: Result<UrlRoute, String>)
    ensures
        (match r {
            Ok(u) => url_route(text@) == Ok::<UrlRouteView, Seq<char>>(u@),
            Err(e) => url_route(text@) == Err::<UrlRouteView, Seq<char>>(e@),
        }),
{
    match reqwest::Url::parse(text) {
        Ok(url) => Ok(UrlRoute {
            serialized: url.to_string(),
            scheme: url.scheme().to_string(),
            username: url.username().to_string(),
            password: url.password().map(|p| p.to_string()),
            fragment: url.fragment().map(|f| f.to_string()),
            host: url.host_str().map(|h| h.to_string()),
            port: url.port_or_known_default(),
            path: url.path().to_string(),
            query_pairs: url.query_pairs().map(|(k, v)| (k.into_owned(), v.into_owned())).collect(),
        }),
        Err(error) => Err(error.to_string()),
    }
}

/// The URL parsed from `text` with its path set to `path`, serialised.
pub uninterp spec fn url_with_path(text: Seq<char>, path: Seq<char>) -> Seq<char>;

/// `Url::parse`, `set_path` and `to_string`; `None` where the text does not
/// parse (as `parse_route` reports).
#[verifier::external_body]
pub(crate) fn set_url_path(text: &str, path: &str) -> (r: Option<String>)
    ensures
        r is None <==> url_route(text@) is Err,
        r matches Some(s) ==> s@ == url_with_path(text@, path@),
{
    match reqwest::Url::parse(text) {
        Ok(mut url) => {
            url.set_path(path);
            Some(url.to_string())
        },
        Err(_) => None,
    }
}

/// The URL parsed from `text` with its path set to `path` and no query, serialised.
pub uninterp spec fn url_with_path_no_query(text: Seq<char>, path: Seq<char>) -> Seq<char>;

/// `Url::parse`, `set_path`, `set_query(None)` and `to_string`; `None` where
/// the text does not parse.
#[verifier::external_body]
pub(crate) fn set_url_path_without_query(text: &str, path: &str) -> (r: Option<String>)
    ensures
        r is None <==> url_route(text@) is Err,
        r matches Some(s) ==> s@ == url_with_path_no_query(text@, path@),
{
    match reqwest::Url::parse(text) {
        Ok(mut url) => {
            url.set_path(path);
            url.set_query(None);
            Some(url.to_string())
        },
        Err(_) => None,
    }
}

/// The URL parsed from `text` with its path set to `path` and its query
/// made of `pairs` (form-encoded), serialised.
pub uninterp spec fn url_with_path_and_pairs(
    text: Seq<char>,
    path: Seq<char>,
    pairs: Seq<(Seq<char>, Seq<char>)>,
) -> Seq<char>;

/// `Url::parse`, `set_path`, `set_query(None)`, `query_pairs_mut().extend_pairs`
/// and `to_string`; `None` where the text does not parse.
#[verifier::external_body]
pub(crate) fn set_url_path_and_pairs(text: &str, path: &str, pairs: &Vec<(String, String)>) -> (r: Option<String>)
    ensures
        r is None <==> url_route(text@) is Err,
        r matches Some(s) ==> s@ == url_with_path_and_pairs(text@, path@, pairs_view(pairs@)),
{
    match reqwest::Url::parse(text) {
        Ok(mut url) => {
            url.set_path(path);
            url.set_query(None);
            url.query_pairs_mut().extend_pairs(pairs.iter().map(|(k, v)| (k.as_str(), v.as_str())));
            Some(url.to_string())
        },
        Err(_) => None,
    }
}

/// The URL parsed from `text` with the pair `name=value` appended to its query, serialised.
pub uninterp spec fn url_with_pair(text: Seq<char>, name: Seq<char>, value: Seq<char>) -> Seq<char>;

/// `Url::parse`, `query_pairs_mut().append_pair` and `to_string`; `None`
/// where the text does not parse.
#[verifier::external_body]
pub(crate) fn append_url_pair(text: &str, name: &str, value: &str) -> (r: Option<String>)
    ensures
        r is None <==> url_route(text@) is Err,
        r matches Some(s) ==> s@ == url_with_pair(text@, name@, value@),
{
    match reqwest::Url::parse(text) {
        Ok(mut url) => {
            url.query_pairs_mut().append_pair(name, value);
            Some(url.to_string())
        },
        Err(_) => None,
    }
}

/// `s` with every occurrence of `pat` (left to right, not overlapping)
/// replaced by `with` (`str::replace` for a non-empty pattern).
pub open spec fn replace_all(s: Seq<char>, pat: Seq<char>, with: Seq<char>) -> Seq<char>
    recommends
        pat.len() > 0,
    decreases s.len(),
{
    if pat.len() == 0 || s.len() < pat.len() {
        s
    } else if s.take(pat.len() as int) == pat {
        with + replace_all(s.skip(pat.len() as int), pat, with)
    } else {
        seq![s[0]] + replace_all(s.drop_first(), pat, with)
    }
}

/// `s.replace(pat, with)` for a non-empty pattern.
pub fn replace_str(s: &str, pat: &str, with: &str) -> (r: String)
    requires
        pat@.len() > 0,
    ensures
        r@ == replace_all(s@, pat@, with@),
{
    let cs = crate::text::chars_of(s);
    let pc = crate::text::chars_of(pat);
    let wc = crate::text::chars_of(with);
    let mut out: Vec<char> = Vec::new();
    let mut i: usize = 0;
    assert(cs@.skip(0) =~= cs@);
    while i < cs.len()
        invariant
            i <= cs@.len(),
            pc@ == pat@,
            wc@ == with@,
            pc@.len() > 0,
            out@ + replace_all(cs@.skip(i as int), pc@, wc@) == replace_all(s@, pat@, with@),
            cs@ == s@,
        decreases cs.len() - i,
    {
        let ghost rest = cs@.skip(i as int);
        if cs.len() - i >= pc.len() && crate::text::chars_eq(
            crate::text::slice_range(cs.as_slice(), i, i + pc.len()).as_slice(),
            pc.as_slice(),
        ) {
            assert(cs@.subrange(i as int, i + pc@.len()) =~= rest.take(pc@.len() as int));
            assert(rest.skip(pc@.len() as int) =~= cs@.skip(i + pc@.len()));
            let ghost before = out@;
            crate::text::push_chars(&mut out, wc.as_slice());
            assert(out@ + replace_all(cs@.skip(i + pc@.len()), pc@, wc@) =~= before + replace_all(rest, pc@, wc@));
            i = i + pc.len();
        } else {
            if cs.len() - i >= pc.len() {
                assert(cs@.subrange(i as int, i + pc@.len()) =~= rest.take(pc@.len() as int));
            }
            assert(rest.drop_first() =~= cs@.skip(i + 1));
            let ghost before = out@;
            out.push(cs[i]);
            assert(out@ + replace_all(cs@.skip(i + 1), pc@, wc@) =~= before + replace_all(rest, pc@, wc@));
            i = i + 1;
        }
    }
    assert(cs@.skip(i as int).len() == 0);
    assert(out@ + replace_all(cs@.skip(i as int), pc@, wc@) =~= out@);
    crate::text::string_from_chars(out.as_slice())
}

} // verus!
