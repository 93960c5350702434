//! Which addresses the desktop may open: in the system browser, in the
//! embedded web view, and inside the app window.
use vstd::prelude::*;
use crate::text;

verus! {

/// The host part of a parsed URL.
pub enum UrlHost {
    Domain(String),
    Ipv4([u8; 4]),
    Ipv6([u16; 8]),
}

/// What the rules below read of a URL.
pub struct ParsedUrl {
    pub scheme: String,
    pub host: Option<UrlHost>,
    pub port: Option<u16>,
}

pub enum HostView {
    Domain(Seq<char>),
    Ipv4(Seq<u8>),
    Ipv6(Seq<u16>),
}

pub open spec fn host_view(h: UrlHost) -> HostView {
    match h {
        UrlHost::Domain(d) => HostView::Domain(d@),
        UrlHost::Ipv4(o) => HostView::Ipv4(o@),
        UrlHost::Ipv6(s) => HostView::Ipv6(s@),
    }
}

pub type UrlView = (Seq<char>, Option<HostView>, Option<u16>);

pub open spec fn url_view(u: ParsedUrl) -> UrlView {
    (
        u.scheme@,
        match u.host {
            Some(h) => Some(host_view(h)),
            None => None,
        },
        u.port,
    )
}

/// What `url::Url::parse` gives for a text: its scheme, host and explicit
/// port (`scheme()`, `host()`, `port()`), or nothing when it does not parse.
pub uninterp spec fn url_parse(text: Seq<char>) -> Option<UrlView>;

/// `url::Url::parse`, read as scheme, host and port. The contract names the
/// result (`url_parse`); the URL grammar is not restated here.
#[verifier::external_body]
fn parse_url(text: &str) -> (r: Option<ParsedUrl>)
    ensures
        match r {
            Some(u) => url_parse(text@) == Some(url_view(u)),
            None => url_parse(text@) is None,
        },
{
    let u = url::Url::parse(text).ok()?;
    let host = match u.host() {
        Some(url::Host::Domain(d)) => Some(UrlHost::Domain(d.to_string())),
        Some(url::Host::Ipv4(ip)) => Some(UrlHost::Ipv4(ip.octets())),
        Some(url::Host::Ipv6(ip)) => Some(UrlHost::Ipv6(ip.segments())),
        None => None,
    };
    Some(ParsedUrl { scheme: u.scheme().to_string(), host, port: u.port() })
}

/// A loopback host: the name `localhost`, an IPv4 address in 127.0.0.0/8,
/// or the IPv6 address `::1`.
pub open spec fn loopback(h: HostView) -> bool {
    match h {
        HostView::Domain(d) => d == "localhost"@,
        HostView::Ipv4(o) => o.len() == 4 && o[0] == 127,
        HostView::Ipv6(s) => s.len() == 8 && (forall|i: int| 0 <= i < 7 ==> s[i] == 0) && s[7] == 1,
    }
}

fn loopback_exec(h: &UrlHost) -> (b: bool)
    ensures
        b == loopback(host_view(*h)),
{
    match h {
        UrlHost::Domain(d) => text::str_eq(d.as_str(), "localhost"),
        UrlHost::Ipv4(o) => o[0] == 127,
        UrlHost::Ipv6(s) => {
            let ok = s[0] == 0 && s[1] == 0 && s[2] == 0 && s[3] == 0 && s[4] == 0 && s[5] == 0 && s[6] == 0 && s[7] == 1;
            proof {
                if ok {
                    assert forall|i: int| 0 <= i < 7 implies s@[i] == 0 by {}
                } else {
                    if s@[7] == 1 {
                        assert(!(forall|i: int| 0 <= i < 7 ==> s@[i] == 0)) by {
                            if forall|i: int| 0 <= i < 7 ==> s@[i] == 0 {
                                assert(s@[0] == 0 && s@[1] == 0 && s@[2] == 0 && s@[3] == 0);
                                assert(s@[4] == 0 && s@[5] == 0 && s@[6] == 0);
                            }
                        }
                    }
                }
            }
            ok
        },
    }
}

/// A URL may go to the system browser when its scheme is `https`, `http`
/// or `mailto`.
pub open spec fn external_allowed(u: Option<UrlView>) -> bool {
    match u {
        Some(v) => v.0 == "https"@ || v.0 == "http"@ || v.0 == "mailto"@,
        None => false,
    }
}

/// The web view may load a loopback host on an explicit port of 1024 or more.
pub open spec fn webview_allowed(u: Option<UrlView>) -> bool {
    match u {
        Some(v) => match v.1 {
            Some(h) => loopback(h) && match v.2 {
                Some(p) => p >= 1024,
                None => false,
            },
            None => false,
        },
        None => false,
    }
}

/// The app window may show local files, and http(s) pages of a loopback host.
pub open spec fn navigation_allowed(u: Option<UrlView>) -> bool {
    match u {
        Some(v) => if v.0 == "file"@ {
            true
        } else if v.0 == "http"@ || v.0 == "https"@ {
            match v.1 {
                Some(h) => loopback(h),
                None => false,
            }
        } else {
            false
        },
        None => false,
    }
}

pub open spec fn opt_url_view(u: Option<ParsedUrl>) -> Option<UrlView> {
    match u {
        Some(x) => Some(url_view(x)),
        None => None,
    }
}

/// The browser rule on a parsed URL.
pub fn external_url_rule(u: &Option<ParsedUrl>) -> (b: bool)
    ensures
        b == external_allowed(opt_url_view(*u)),
{
    match u {
        Some(v) => {
            let s = v.scheme.as_str();
            text::str_eq(s, "https") || text::str_eq(s, "http") || text::str_eq(s, "mailto")
        },
        None => false,
    }
}

/// The web-view rule on a parsed URL.
pub fn webview_url_rule(u: &Option<ParsedUrl>) -> (b: bool)
    ensures
        b == webview_allowed(opt_url_view(*u)),
{
    match u {
        Some(v) => match &v.host {
            Some(h) => {
                if !loopback_exec(h) {
                    return false;
                }
                match v.port {
                    Some(p) => p >= 1024,
                    None => false,
                }
            },
            None => false,
        },
        None => false,
    }
}

/// The in-app navigation rule on a parsed URL.
pub fn navigation_rule(u: &Option<ParsedUrl>) -> (b: bool)
    ensures
        b == navigation_allowed(opt_url_view(*u)),
{
    match u {
        Some(v) => {
            let s = v.scheme.as_str();
            if text::str_eq(s, "file") {
                true
            } else if text::str_eq(s, "http") || text::str_eq(s, "https") {
                match &v.host {
                    Some(h) => loopback_exec(h),
                    None => false,
                }
            } else {
                false
            }
        },
        None => false,
    }
}

/// Whether a URL may be opened in the system browser.
pub fn is_allowed_external_url(url_str: &str) -> (b: bool)
    ensures
        b == external_allowed(url_parse(url_str@)),
{
    let u = parse_url(url_str);
    external_url_rule(&u)
}

/// Whether the web view may load a URL.
pub fn is_allowed_webview_url(url_str: &str) -> (b: bool)
    ensures
        b == webview_allowed(url_parse(url_str@)),
{
    let u = parse_url(url_str);
    webview_url_rule(&u)
}

/// Whether the app window may navigate to a URL.
pub fn is_allowed_app_navigation(url_str: &str) -> (b: bool)
    ensures
        b == navigation_allowed(url_parse(url_str@)),
{
    let u = parse_url(url_str);
    navigation_rule(&u)
}

} // verus!
