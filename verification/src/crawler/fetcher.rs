//! The HTTP fetcher: a `reqwest` client built from the crawl configuration,
//! with User-Agent rotation (anti-bot basics), and the response record.
use vstd::prelude::*;

use crate::config::{strings_view, CrawlConfig};
use crate::error::CrawlError;
use crate::text::{contains_seq, contains_str};
use crate::web_url::opt_view;

verus! {

broadcast use vstd::string::group_string_axioms;

#[verifier::external_type_specification]
#[verifier::external_body]
pub struct ExClient(reqwest::Client);

#[verifier::external_type_specification]
#[verifier::external_body]
pub struct ExRedirectPolicy(reqwest::redirect::Policy);

#[verifier::external_type_specification]
#[verifier::external_body]
pub struct ExReqwestError(reqwest::Error);

/// An HTTP response as the crawler reads it.
pub struct FetchResponse {
    pub status: u16,
    pub body: String,
    pub content_type: Option<String>,
    pub content_length: Option<u64>,
    pub final_url: String,
}

/// A response is HTML when its content type mentions `text/html`.
pub open spec fn is_html_spec(r: FetchResponse) -> bool {
    r.content_type matches Some(ct) && contains_seq(ct@, "text/html"@)
}

impl FetchResponse {
    /// Whether the content type mentions `text/html`.
    pub fn is_html(&self) -> (b: bool)
        ensures
            b == is_html_spec(*self),
    {
        match &self.content_type {
            Some(ct) => contains_str(ct.as_str(), "text/html"),
            None => false,
        }
    }
}

#[verifier::external_type_specification]
#[verifier::external_body]
pub struct ExProxy(reqwest::Proxy);

/// A redirect policy with the limit it was made with (`None`: no redirect
/// is followed).
pub struct RedirectPolicy {
    policy: reqwest::redirect::Policy,
    limit: Option<usize>,
}

impl RedirectPolicy {
    /// The most redirects followed, or `None` when none is.
    pub closed spec fn limit(&self) -> Option<usize> {
        self.limit
    }
}

/// A proxy for all traffic, with the URL it was made from.
pub struct ClientProxy {
    proxy: reqwest::Proxy,
    url: String,
}

impl ClientProxy {
    /// The proxy URL.
    pub closed spec fn url(&self) -> Seq<char> {
        self.url@
    }
}

/// An HTTP client with the settings it was built with.
pub struct HttpClient {
    client: reqwest::Client,
    timeout_secs: u64,
    redirect_limit: Option<usize>,
    proxy: Option<String>,
}

impl HttpClient {
    /// The request timeout in seconds.
    pub closed spec fn timeout_secs(&self) -> u64 {
        self.timeout_secs
    }

    /// The most redirects followed, or `None` when none is.
    pub closed spec fn redirect_limit(&self) -> Option<usize> {
        self.redirect_limit
    }

    /// The proxy URL all traffic goes through, if any.
    pub closed spec fn proxy(&self) -> Option<Seq<char>> {
        match self.proxy {
            Some(p) => Some(p@),
            None => None,
        }
    }
}

/// `redirect::Policy::limited`. Claims that the policy records the limit it
/// was made with.
#[verifier::external_body]
fn redirect_limited(max: usize) -> (p: RedirectPolicy)
    ensures
        p.limit() == Some(max),
{
    RedirectPolicy { policy: reqwest::redirect::Policy::limited(max), limit: Some(max) }
}

/// `redirect::Policy::none`. Claims that the policy records that no redirect
/// is followed.
#[verifier::external_body]
fn redirect_none() -> (p: RedirectPolicy)
    ensures
        p.limit() is None,
{
    RedirectPolicy { policy: reqwest::redirect::Policy::none(), limit: None }
}

/// `Proxy::all`. It fails on a URL it cannot use as a proxy (which depends
/// on the URL parser and on the proxy schemes built in); claims only that a
/// proxy it returns records the URL it was made from.
#[verifier::external_body]
fn proxy_all(url: &str) -> (r: Result<ClientProxy, reqwest::Error>)
    ensures
        r matches Ok(p) ==> p.url() == url@,
{
    reqwest::Proxy::all(url).map(|proxy| ClientProxy { proxy, url: url.to_string() })
}

/// `ClientBuilder::build` after setting the timeout (whole seconds), the
/// redirect policy, and gzip and brotli decoding. Whether it succeeds
/// depends on the TLS backend of the machine; claims that a client it
/// returns records the timeout and redirect limit it was given and no proxy.
#[verifier::external_body]
fn build_client(timeout_secs: u64, policy: RedirectPolicy) -> (r: Result<HttpClient, reqwest::Error>)
    ensures
        r matches Ok(c) ==> c.timeout_secs() == timeout_secs && c.redirect_limit()
            == policy.limit() && c.proxy() is None,
{
    let timeout = std::time::Duration::from_secs(timeout_secs);
    let builder = reqwest::Client::builder().timeout(timeout).redirect(policy.policy);
    let limit = policy.limit;
    builder.gzip(true).brotli(true).build().map(|client| HttpClient { client, timeout_secs, redirect_limit: limit, proxy: None })
}

/// `ClientBuilder::build` as `build_client` does, with all traffic sent
/// through `proxy`. Whether it succeeds depends on the TLS backend of the
/// machine; claims that a client it returns records the timeout, the
/// redirect limit and the proxy URL it was given.
#[verifier::external_body]
fn build_client_via(timeout_secs: u64, policy: RedirectPolicy, proxy: ClientProxy) -> (r: Result<HttpClient, reqwest::Error>)
    ensures
        r matches Ok(c) ==> c.timeout_secs() == timeout_secs && c.redirect_limit()
            == policy.limit() && c.proxy() == Some(proxy.url()),
{
    let timeout = std::time::Duration::from_secs(timeout_secs);
    let builder = reqwest::Client::builder().timeout(timeout).redirect(policy.policy).proxy(proxy.proxy);
    let (limit, url) = (policy.limit, proxy.url);
    builder.gzip(true).brotli(true).build().map(|client| HttpClient { client, timeout_secs, redirect_limit: limit, proxy: Some(url) })
}

/// The HTTP fetcher: a client and the User-Agents it rotates through.
pub struct Fetcher {
    client: HttpClient,
    user_agents: Vec<String>,
    ua_counter: usize,
}

impl Fetcher {
    /// The User-Agents the fetcher rotates through.
    pub closed spec fn agents(&self) -> Seq<Seq<char>> {
        strings_view(self.user_agents@)
    }

    /// How many User-Agents have been handed out (modulo the word size).
    pub closed spec fn handed_out(&self) -> usize {
        self.ua_counter
    }

    /// The request timeout of the client, in seconds.
    pub closed spec fn timeout_secs(&self) -> u64 {
        self.client.timeout_secs()
    }

    /// The most redirects the client follows, or `None` when it follows none.
    pub closed spec fn redirect_limit(&self) -> Option<usize> {
        self.client.redirect_limit()
    }

    /// The proxy URL the client sends all traffic through, if any.
    pub closed spec fn proxy(&self) -> Option<Seq<char>> {
        self.client.proxy()
    }

    /// Builds the client from the configuration: the timeout, either at most
    /// `max_redirects` redirects or none when redirects are not followed, and
    /// the proxy when there is one. The rotation starts with the first
    /// User-Agent. Fails when the proxy URL is refused or the client cannot
    /// be built.
    pub fn new(config: &CrawlConfig) -> (r: Result<Fetcher, CrawlError>)
        ensures
            r matches Ok(f) ==> {
                &&& f.agents() == strings_view(config.user_agents@)
                &&& f.handed_out() == 0
                &&& f.timeout_secs() == config.timeout_secs
                &&& f.redirect_limit() == if config.follow_redirects {
                    Some(config.max_redirects)
                } else {
                    None
                }
                &&& f.proxy() == opt_view(config.proxy)
            },
            r matches Err(e) ==> e is Client,
    {
        let policy = if config.follow_redirects {
            redirect_limited(config.max_redirects)
        } else {
            redirect_none()
        };
        let built = match &config.proxy {
            Some(url) => match proxy_all(url.as_str()) {
                Ok(p) => build_client_via(config.timeout_secs, policy, p),
                Err(e) => return Err(CrawlError::Client(e)),
            },
            None => build_client(config.timeout_secs, policy),
        };
        let client = match built {
            Ok(c) => c,
            Err(e) => return Err(CrawlError::Client(e)),
        };
        let mut user_agents: Vec<String> = Vec::new();
        let mut i: usize = 0;
        while i < config.user_agents.len()
            invariant
                i <= config.user_agents@.len(),
                strings_view(user_agents@) == strings_view(config.user_agents@).take(i as int),
            decreases config.user_agents@.len() - i,
        {
            let ghost before = user_agents@;
            user_agents.push(config.user_agents[i].clone());
            assert(strings_view(user_agents@) == strings_view(before).push(
                config.user_agents@[i as int]@,
            ));
            assert(strings_view(config.user_agents@).take(i + 1) == strings_view(
                config.user_agents@,
            ).take(i as int).push(config.user_agents@[i as int]@));
            i += 1;
        }
        assert(strings_view(config.user_agents@).take(config.user_agents@.len() as int)
            == strings_view(config.user_agents@));
        Ok(Fetcher { client, user_agents, ua_counter: 0 })
    }

    /// The number of User-Agents in the rotation.
    pub fn user_agent_count(&self) -> (n: usize)
        ensures
            n == self.agents().len(),
    {
        self.user_agents.len()
    }

    /// The HTTP client the fetcher was built with.
    pub closed spec fn client_spec(&self) -> reqwest::Client {
        self.client.client
    }

    /// The HTTP client.
    pub fn client(&self) -> (c: &reqwest::Client)
        ensures
            *c == self.client_spec(),
    {
        &self.client.client
    }

    /// The next User-Agent of the rotation: the one at the number handed out
    /// so far, modulo the number of User-Agents. The count wraps around.
    pub fn next_user_agent(&mut self) -> (ua: String)
        requires
            old(self).agents().len() > 0,
        ensures
            ua@ == old(self).agents()[(old(self).handed_out() as int) % (old(self).agents().len() as int)],
            final(self).agents() == old(self).agents(),
            final(self).handed_out() == old(self).handed_out().wrapping_add(1),
    {
        let idx = self.ua_counter % self.user_agents.len();
        self.ua_counter = self.ua_counter.wrapping_add(1);
        self.user_agents[idx].clone()
    }
}

/// The rotation has the number of User-Agents as its period: handing out
/// `n` more (without wrapping the count) comes back to the same one.
pub proof fn lemma_rotation_period(handed_out: nat, n: nat)
    requires
        n > 0,
    ensures
        (handed_out + n) % n == handed_out % n,
        n > 1 ==> (handed_out + 1) % n != handed_out % n,
{
    vstd::arithmetic::div_mod::lemma_mod_add_multiples_vanish(handed_out as int, n as int);
    if n > 1 {
        let h = handed_out as int;
        let m = n as int;
        vstd::arithmetic::div_mod::lemma_fundamental_div_mod(h, m);
        let q = h / m;
        let r = h % m;
        assert(0 <= r < m);
        assert(h + 1 == m * q + (r + 1));
        vstd::arithmetic::div_mod::lemma_mod_multiples_vanish(q, r + 1, m);
        assert((h + 1) % m == (r + 1) % m);
        if r + 1 < m {
            vstd::arithmetic::div_mod::lemma_small_mod((r + 1) as nat, m as nat);
        } else {
            vstd::arithmetic::div_mod::lemma_mod_self_0(m);
        }
    }
}

} // verus!
