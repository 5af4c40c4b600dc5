//! Parsed URLs. The `url` crate parses, joins and edits URLs; this module
//! keeps its record together with the record's serialization, which is what
//! the rest of the library reads. A `url::Url` is identified by its
//! serialization: its equality compares serializations only, and parsing a
//! serialization gives back the same URL, so every result below is named as a
//! function of serializations and plain arguments.
use vstd::prelude::*;

verus! {

#[verifier::external_type_specification]
#[verifier::external_body]
pub struct ExUrl(url::Url);

#[verifier::external_type_specification]
#[verifier::external_body]
pub struct ExUrlParseError(url::ParseError);

/// A URL accepted by the `url` crate, with its serialization.
pub struct WebUrl {
    url: url::Url,
    text: String,
}

impl View for WebUrl {
    type V = Seq<char>;

    /// The serialization of the URL.
    closed spec fn view(&self) -> Seq<char> {
        self.text@
    }
}

/// The view of an optional string.
pub open spec fn opt_view(o: Option<String>) -> Option<Seq<char>> {
    match o {
        Some(s) => Some(s@),
        None => None,
    }
}

/// The view of an optional string slice.
pub open spec fn opt_str_view(o: Option<&str>) -> Option<Seq<char>> {
    match o {
        Some(s) => Some(s@),
        None => None,
    }
}

/// The views of a sequence of string pairs.
pub open spec fn pair_views(v: Seq<(String, String)>) -> Seq<(Seq<char>, Seq<char>)> {
    v.map_values(|p: (String, String)| (p.0@, p.1@))
}

/// The serialization of what `Url::parse` returns for `raw`, or `None` when
/// it refuses `raw`.
pub uninterp spec fn url_parse_result(raw: Seq<char>) -> Option<Seq<char>>;

/// The serialization of what `Url::join` returns for a base URL and a
/// reference, or `None` when it refuses them.
pub uninterp spec fn url_join_result(base: Seq<char>, reference: Seq<char>) -> Option<Seq<char>>;

/// The serialization of a URL after `set_fragment(None)`.
pub uninterp spec fn url_without_fragment(url: Seq<char>) -> Seq<char>;

/// What `Url::query` returns for a URL.
pub uninterp spec fn url_query_part(url: Seq<char>) -> Option<Seq<char>>;

/// The decoded name/value pairs that `Url::query_pairs` yields for a URL.
pub uninterp spec fn url_query_pairs(url: Seq<char>) -> Seq<(Seq<char>, Seq<char>)>;

/// The serialization of a URL after `set_query(query)`.
pub uninterp spec fn url_with_query(url: Seq<char>, query: Option<Seq<char>>) -> Seq<char>;

/// What `Url::path` returns for a URL.
pub uninterp spec fn url_path_part(url: Seq<char>) -> Seq<char>;

/// `Url::parse`. Claims that the call succeeds exactly when
/// `url_parse_result` is `Some`, and that the serialization of the URL it
/// returns is the one named there.
#[verifier::external_body]
pub(crate) fn parse_url(raw: &str) -> (r: Result<WebUrl, url::ParseError>)
    ensures
        r is Ok <==> url_parse_result(raw@) is Some,
        r matches Ok(u) ==> url_parse_result(raw@) == Some(u@),
{
    url::Url::parse(raw).map(|url| WebUrl { text: url.as_str().to_string(), url })
}

/// `Url::join`. Claims that the call succeeds exactly when `url_join_result`
/// is `Some`, and that the joined URL serializes as named there.
#[verifier::external_body]
pub(crate) fn join_url(base: &WebUrl, reference: &str) -> (r: Result<WebUrl, url::ParseError>)
    ensures
        r is Ok <==> url_join_result(base@, reference@) is Some,
        r matches Ok(u) ==> url_join_result(base@, reference@) == Some(u@),
{
    base.url.join(reference).map(|url| WebUrl { text: url.as_str().to_string(), url })
}

/// `Url::set_fragment(None)`. Claims that the serialization afterwards is
/// `url_without_fragment` of the one before.
#[verifier::external_body]
pub(crate) fn clear_fragment(u: &mut WebUrl)
    ensures
        final(u)@ == url_without_fragment(old(u)@),
{
    u.url.set_fragment(None);
    u.text = u.url.as_str().to_string();
}

/// `Url::query`. Claims that the result is `url_query_part` of the URL.
#[verifier::external_body]
pub(crate) fn query_of(u: &WebUrl) -> (q: Option<String>)
    ensures
        opt_view(q) == url_query_part(u@),
{
    u.url.query().map(|s| s.to_string())
}

/// `Url::query_pairs`, each decoded pair copied into owned strings. Claims
/// that the pairs are `url_query_pairs` of the URL, in the order yielded.
#[verifier::external_body]
pub(crate) fn query_pairs_of(u: &WebUrl) -> (v: Vec<(String, String)>)
    ensures
        pair_views(v@) == url_query_pairs(u@),
{
    u.url.query_pairs().map(|(k, v)| (k.to_string(), v.to_string())).collect()
}

/// `Url::set_query`. Claims that the serialization afterwards is
/// `url_with_query` of the one before and of the query given.
#[verifier::external_body]
pub(crate) fn set_query(u: &mut WebUrl, query: Option<&str>)
    ensures
        final(u)@ == url_with_query(old(u)@, opt_str_view(query)),
{
    u.url.set_query(query);
    u.text = u.url.as_str().to_string();
}

/// `Url::path`. Claims that the result is `url_path_part` of the URL.
#[verifier::external_body]
pub(crate) fn path_of(u: &WebUrl) -> (p: String)
    ensures
        p@ == url_path_part(u@),
{
    u.url.path().to_string()
}

impl WebUrl {
    /// The serialization of the URL (what `to_string` gives).
    pub fn serialization(&self) -> (s: String)
        ensures
            s@ == self@,
    {
        self.text.clone()
    }
}

} // verus!
