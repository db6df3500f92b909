//! The way to upstream: the address to reach, the request that opens a
//! tunnel to it, and whether the tunnel's reply grants it.

use vstd::prelude::*;
use vstd::string::*;
use crate::config::Config;
use crate::decimal::{decimal_nat, u64_to_chars};
use crate::narrative::{lossy_text, lossy_text_of};
use crate::text::{push_char, starts_with, starts_with_spec};

verus! {

/// The host of a URL: `None` where the text is no URL, `Some(None)` where it
/// is one without a host.
pub uninterp spec fn url_host_of(url: Seq<char>) -> Option<Option<Seq<char>>>;

/// The port of a URL, its own or the usual one of its scheme: `None` where
/// the text is no URL, `Some(None)` where it is one without either.
pub uninterp spec fn url_port_of(url: Seq<char>) -> Option<Option<u16>>;

/// Reads the host of a URL.
///
/// Trusted: `url::Url::parse`, then `Url::host_str`. Both depend on the text
/// alone; the outcome is named, not restated.
#[verifier::external_body]
fn url_host(url: &str) -> (r: Option<Option<String>>)
    ensures
        (r is Some) == (url_host_of(url@) is Some),
        r is Some ==> (r->0 is Some) == (url_host_of(url@)->0 is Some),
        r is Some && r->0 is Some ==> r->0->0@ == url_host_of(url@)->0->0,
{
    match url::Url::parse(url) {
        Ok(u) => Some(u.host_str().map(|h| h.to_string())),
        Err(_) => None,
    }
}

/// Reads the port of a URL.
///
/// Trusted: `url::Url::parse`, then `Url::port_or_known_default`. Both
/// depend on the text alone; the outcome is named, not restated.
#[verifier::external_body]
fn url_port(url: &str) -> (r: Option<Option<u16>>)
    ensures
        r == url_port_of(url@),
{
    match url::Url::parse(url) {
        Ok(u) => Some(u.port_or_known_default()),
        Err(_) => None,
    }
}

/// The host to name in the TLS handshake with upstream: the host of the
/// URL, empty where it has none; `None` where the text is no URL.
pub open spec fn tls_host_spec(url: Seq<char>) -> Option<Seq<char>> {
    match url_host_of(url) {
        Some(Some(h)) => Some(h),
        Some(None) => Some(Seq::empty()),
        None => None,
    }
}

/// Reads the host for the TLS handshake off the upstream URL.
pub fn tls_host(url: &str) -> (r: Option<String>)
    ensures
        match r {
            Some(h) => tls_host_spec(url@) == Some(h@),
            None => tls_host_spec(url@) is None,
        },
{
    match url_host(url) {
        Some(Some(h)) => Some(h),
        Some(None) => Some(String::new()),
        None => None,
    }
}

/// The address to connect to for a URL: host and port with a colon between,
/// the port being 443 where the URL gives none; `None` where the text is no
/// URL.
pub open spec fn target_addr_spec(url: Seq<char>) -> Option<Seq<char>> {
    match (tls_host_spec(url), url_port_of(url)) {
        (Some(h), Some(p)) => Some(
            h + ":"@ + decimal_nat(
                match p {
                    Some(n) => n as nat,
                    None => 443,
                },
            ),
        ),
        _ => None,
    }
}

/// Works out the address to connect to for the upstream URL.
pub fn target_addr(url: &str) -> (r: Option<String>)
    ensures
        match r {
            Some(t) => target_addr_spec(url@) == Some(t@),
            None => target_addr_spec(url@) is None,
        },
{
    let host = match tls_host(url) {
        Some(h) => h,
        None => {
            return None;
        },
    };
    let port: u16 = match url_port(url) {
        Some(Some(p)) => p,
        Some(None) => 443,
        None => {
            return None;
        },
    };
    let mut s = host;
    s.append(":");
    let digits = u64_to_chars(port as u64);
    let ghost head = s@;
    let mut i: usize = 0;
    while i < digits.len()
        invariant
            i <= digits.len(),
            s@ == head + digits@.take(i as int),
        decreases digits.len() - i,
    {
        push_char(&mut s, digits[i]);
        i += 1;
        assert(s@ =~= head + digits@.take(i as int));
    }
    assert(digits@.take(digits.len() as int) =~= digits@);
    Some(s)
}

/// The request that asks a tunnel for a connection to `target`.
pub open spec fn connect_request_spec(target: Seq<char>) -> Seq<char> {
    "CONNECT "@ + target + " HTTP/1.1\r\nHost: "@ + target + "\r\nConnection: close\r\n\r\n"@
}

/// Writes the request that asks a tunnel for a connection to `target`.
pub fn connect_request(target: &str) -> (r: String)
    ensures
        r@ == connect_request_spec(target@),
{
    let mut s = String::from_str("CONNECT ");
    s.append(target);
    s.append(" HTTP/1.1\r\nHost: ");
    s.append(target);
    s.append("\r\nConnection: close\r\n\r\n");
    s
}

/// Whether a tunnel's reply grants the connection: it begins with
/// `HTTP/1.1 200`.
pub open spec fn tunnel_granted_spec(reply: Seq<char>) -> bool {
    starts_with_spec(reply, "HTTP/1.1 200"@)
}

/// Tells whether the reply of a tunnel, as the bytes read from it, grants
/// the connection.
pub fn tunnel_granted(reply: &Vec<u8>) -> (r: bool)
    ensures
        r == tunnel_granted_spec(lossy_text_of(reply@)),
{
    let text = lossy_text(reply);
    starts_with(text.as_str(), "HTTP/1.1 200")
}

/// How to reach upstream.
#[derive(Debug)]
pub struct Route {
    /// The address of upstream, host and port.
    pub target: String,
    /// The host to name in the TLS handshake.
    pub host: String,
    /// The address of the tunnel to go through; `None` for a direct
    /// connection.
    pub tunnel: Option<String>,
    /// The request to send to the tunnel; `None` for a direct connection.
    pub request: Option<String>,
}

/// Plans the way to upstream from the settings: directly where no tunnel is
/// set, else through the tunnel with a request for the upstream address.
/// `None` where the upstream URL is no URL.
pub fn route_to_upstream(config: &Config) -> (r: Option<Route>)
    ensures
        (r is Some) == (target_addr_spec(config.binance_wss_url@) is Some),
        r is Some ==> {
            &&& Some(r->0.target@) == target_addr_spec(config.binance_wss_url@)
            &&& Some(r->0.host@) == tls_host_spec(config.binance_wss_url@)
            &&& (r->0.tunnel is None) == (config.proxy_addr@.len() == 0 || config.proxy_addr@
                == "none"@)
            &&& (r->0.request is None) == (r->0.tunnel is None)
            &&& r->0.tunnel is Some ==> r->0.tunnel->0@ == config.proxy_addr@
            &&& r->0.request is Some ==> r->0.request->0@ == connect_request_spec(r->0.target@)
        },
{
    let url = config.binance_wss_url.as_str();
    let target = match target_addr(url) {
        Some(t) => t,
        None => {
            return None;
        },
    };
    let host = match tls_host(url) {
        Some(h) => h,
        None => {
            return None;
        },
    };
    if config.is_direct() {
        Some(Route { target, host, tunnel: None, request: None })
    } else {
        let request = connect_request(target.as_str());
        Some(Route { target, host, tunnel: Some(config.proxy_addr.clone()), request: Some(request) })
    }
}

} // verus!
