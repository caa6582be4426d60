//! The network guard: which requests a plugin may send (host whitelist, then a rate-limit
//! token), the key under which a response is cached, and the timeout a request gets.
//! Sending the request and holding the cache are the host's part.
use vstd::prelude::*;
use crate::permission::{acquired, fresh_limiter, network_access_granted, PermissionManager};
use crate::state::{PluginError, PluginResult};
use crate::text::{joined, owned, str_eq};

verus! {

/// The host of `url` as the URL parser reads it, if the URL parses and has one.
pub uninterp spec fn url_host_of(url: Seq<char>) -> Option<Seq<char>>;

/// Relies on `url::Url::parse` and `Url::host_str`: the host of a URL that parses and
/// has one. The result depends on the text of the URL alone.
#[verifier::external_body]
fn url_host(url: &str) -> (r: Option<String>)
    ensures
        r is Some <==> url_host_of(url@) is Some,
        r matches Some(h) ==> url_host_of(url@) == Some(h@),
{
    url::Url::parse(url).ok().and_then(|u| u.host_str().map(|h| h.to_string()))
}

/// An HTTP method.
#[derive(Debug, Clone, Copy, PartialEq, Eq, Structural)]
pub enum HttpMethod {
    Get,
    Post,
    Put,
    Delete,
    Patch,
    Head,
    Options,
}

pub open spec fn method_name(m: HttpMethod) -> Seq<char> {
    match m {
        HttpMethod::Get => "GET"@,
        HttpMethod::Post => "POST"@,
        HttpMethod::Put => "PUT"@,
        HttpMethod::Delete => "DELETE"@,
        HttpMethod::Patch => "PATCH"@,
        HttpMethod::Head => "HEAD"@,
        HttpMethod::Options => "OPTIONS"@,
    }
}

impl HttpMethod {
    /// The method's name in upper case.
    pub fn as_str(&self) -> (r: &'static str)
        ensures
            r@ == method_name(*self),
    {
        match self {
            HttpMethod::Get => "GET",
            HttpMethod::Post => "POST",
            HttpMethod::Put => "PUT",
            HttpMethod::Delete => "DELETE",
            HttpMethod::Patch => "PATCH",
            HttpMethod::Head => "HEAD",
            HttpMethod::Options => "OPTIONS",
        }
    }
}

/// A request a plugin asks to send.
#[derive(Debug, Clone)]
pub struct HttpRequest {
    pub url: String,
    pub method: HttpMethod,
    /// Header names and values, names unique.
    pub headers: Vec<(String, String)>,
    pub body: Option<String>,
    pub timeout_secs: Option<u64>,
}

/// A response handed back to a plugin.
#[derive(Debug, Clone)]
pub struct HttpResponse {
    pub status: u16,
    pub headers: Vec<(String, String)>,
    pub body: String,
}

/// Seconds a request waits when it names no timeout.
pub const DEFAULT_TIMEOUT_SECS: u64 = 30;

/// The longest timeout a request may have, in seconds.
pub const MAX_TIMEOUT_SECS: u64 = 300;

/// Seconds a cached response stays fresh.
pub const CACHE_TTL_SECS: u64 = 300;

/// How many responses the cache holds.
pub const CACHE_CAPACITY: usize = 1000;

/// The value of the first header named `name`, if any.
pub open spec fn header_value(headers: Seq<(String, String)>, name: Seq<char>) -> Option<Seq<char>>
    decreases headers.len(),
{
    if headers.len() == 0 {
        None
    } else if headers[0].0@ == name {
        Some(headers[0].1@)
    } else {
        header_value(headers.drop_first(), name)
    }
}

/// `METHOD:URL`, followed by `:auth:<value>` when an `Authorization` header is present.
pub open spec fn cache_key_of(req: HttpRequest) -> Seq<char> {
    let base = method_name(req.method) + ":"@ + req.url@;
    match header_value(req.headers@, "Authorization"@) {
        Some(v) => base + ":auth:"@ + v,
        None => base,
    }
}

/// The first header named `name`.
fn find_header<'a>(headers: &'a Vec<(String, String)>, name: &str) -> (r: Option<&'a String>)
    ensures
        match r {
            Some(v) => header_value(headers@, name@) == Some(v@),
            None => header_value(headers@, name@) is None,
        },
{
    let mut i: usize = 0;
    assert(headers@.subrange(0, headers@.len() as int) =~= headers@);
    while i < headers.len()
        invariant
            0 <= i <= headers@.len(),
            header_value(headers@, name@) == header_value(headers@.subrange(i as int, headers@.len() as int), name@),
        decreases headers@.len() - i,
    {
        let ghost rest = headers@.subrange(i as int, headers@.len() as int);
        assert(rest.drop_first() =~= headers@.subrange(i + 1, headers@.len() as int));
        if str_eq(headers[i].0.as_str(), name) {
            return Some(&headers[i].1);
        }
        i = i + 1;
    }
    None
}

/// The key a response to `req` is cached under.
pub fn cache_key(req: &HttpRequest) -> (r: String)
    ensures
        r@ == cache_key_of(*req),
{
    let base = joined(joined(req.method.as_str(), ":").as_str(), req.url.as_str());
    match find_header(&req.headers, "Authorization") {
        Some(auth) => joined(joined(base.as_str(), ":auth:").as_str(), auth.as_str()),
        None => base,
    }
}

/// The timeout of `req` in seconds: its own, or the default, and never above the maximum.
pub fn effective_timeout(req: &HttpRequest) -> (r: u64)
    ensures
        r == match req.timeout_secs {
            Some(t) => if t > MAX_TIMEOUT_SECS { MAX_TIMEOUT_SECS } else { t },
            None => DEFAULT_TIMEOUT_SECS,
        },
{
    let t = match req.timeout_secs {
        Some(t) => t,
        None => DEFAULT_TIMEOUT_SECS,
    };
    if t > MAX_TIMEOUT_SECS {
        MAX_TIMEOUT_SECS
    } else {
        t
    }
}

/// A cached response is served while `now` is before its expiry.
pub fn cache_entry_fresh(expires_at: u64, now: u64) -> (r: bool)
    ensures
        r == (now < expires_at),
{
    now < expires_at
}

/// When a response cached at `now` expires: the time to live later, in milliseconds,
/// or the end of time.
pub open spec fn cache_expiry_of(now: u64) -> u64 {
    if now > u64::MAX - CACHE_TTL_SECS * 1000 {
        u64::MAX
    } else {
        (now + CACHE_TTL_SECS * 1000) as u64
    }
}

/// When a response cached at `now` expires.
pub fn cache_expiry(now: u64) -> (r: u64)
    ensures
        r == cache_expiry_of(now),
{
    if now > u64::MAX - CACHE_TTL_SECS * 1000 {
        u64::MAX
    } else {
        now + CACHE_TTL_SECS * 1000
    }
}

/// Whether a response to `req` with `status` is kept in the cache: a `GET` answered 200.
pub fn cacheable(req: &HttpRequest, status: u16) -> (r: bool)
    ensures
        r == (req.method == HttpMethod::Get && status == 200),
{
    req.method == HttpMethod::Get && status == 200
}

/// Checks that the URL's host is whitelisted for the plugin; the check is recorded for
/// audit.
pub fn validate_domain(pm: &mut PermissionManager, plugin_id: &str, url: &str) -> (r: PluginResult<String>)
    requires
        old(pm).wf(),
    ensures
        final(pm).wf(),
        r is Ok <==> url_host_of(url@) is Some && network_access_granted(
            old(pm).grants(),
            plugin_id@,
            url_host_of(url@)->0,
        ),
        r matches Ok(h) ==> url_host_of(url@) == Some(h@),
        r matches Err(e) ==> e is PermissionDenied,
        final(pm).grants() == old(pm).grants(),
        final(pm).auto_approves() == old(pm).auto_approves(),
        forall|id: Seq<char>| final(pm).limiter_for(id) == old(pm).limiter_for(id),
{
    let host = match url_host(url) {
        Some(h) => h,
        None => return Err(PluginError::PermissionDenied(joined("URL has no host: ", url))),
    };
    if !pm.validate_network_permission(plugin_id, host.as_str()) {
        return Err(PluginError::PermissionDenied(joined("No network permission for domain: ", host.as_str())));
    }
    Ok(host)
}

/// Decides whether the plugin may send `req` at time `now` (milliseconds): its host must
/// be whitelisted, then a rate-limit token is taken, and `OPTIONS` is never sent. A
/// refusal is a `PermissionDenied`; a rate-limit refusal is recorded for audit.
pub fn admit_request(pm: &mut PermissionManager, plugin_id: &str, req: &HttpRequest, now: u64) -> (r: PluginResult<()>)
    requires
        old(pm).wf(),
    ensures
        final(pm).wf(),
        ({
            let start = match old(pm).limiter_for(plugin_id@) {
                Some(l) => l,
                None => fresh_limiter(now),
            };
            let whitelisted = url_host_of(req.url@) is Some && network_access_granted(
                old(pm).grants(),
                plugin_id@,
                url_host_of(req.url@)->0,
            );
            &&& r is Ok <==> whitelisted && acquired(start, now).1 && req.method != HttpMethod::Options
            &&& whitelisted && !acquired(start, now).1 ==> (match r {
                Err(PluginError::PermissionDenied(m)) => m@ == "Rate limit exceeded"@,
                _ => false,
            }) && !final(pm).pending_audit().last().result
                && final(pm).pending_audit().last().error_message is Some
                && final(pm).pending_audit().last().error_message->0@ == "Rate limit exceeded"@
            &&& whitelisted ==> final(pm).limiter_for(plugin_id@) == Some(acquired(start, now).0)
            &&& !whitelisted ==> final(pm).limiter_for(plugin_id@) == old(pm).limiter_for(plugin_id@)
        }),
        r matches Err(e) ==> e is PermissionDenied,
        final(pm).grants() == old(pm).grants(),
        forall|id: Seq<char>| id != plugin_id@ ==> final(pm).limiter_for(id) == old(pm).limiter_for(id),
{
    validate_domain(pm, plugin_id, req.url.as_str())?;
    if !pm.check_rate_limit_at(plugin_id, now) {
        return Err(PluginError::PermissionDenied(owned("Rate limit exceeded")));
    }
    if req.method == HttpMethod::Options {
        return Err(PluginError::PermissionDenied(owned("OPTIONS method not supported")));
    }
    Ok(())
}

} // verus!
