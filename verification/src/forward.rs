//! What is sent upstream and what comes back: the fingerprint of a request,
//! the address it is forwarded to, and the headers that are passed on.

use vstd::prelude::*;
use vstd::string::*;
use crate::response::{plain, Response, ResponseView};
use crate::text::{
    chars_of, decimal, decimal_of, eq_ignore_case, join, lower_text, string_of, to_upper_text,
    upper_text,
};

verus! {

/// The fingerprint of a request: its method in upper case, a colon, and the
/// request target as it was received. Replay matches requests by nothing
/// else.
pub open spec fn fingerprint_of(method: Seq<char>, target: Seq<char>) -> Seq<char> {
    upper_text(method) + seq![':'] + target
}

/// The fingerprint of a request.
pub fn fingerprint(method: &str, target: &str) -> (print: String)
    ensures
        print@ == fingerprint_of(method@, target@),
{
    let mut print = to_upper_text(method);
    proof {
        reveal_strlit(":");
        assert(":"@ =~= seq![':']);
    }
    print.append(":");
    print.append(target);
    print
}

/// The parts of a URI.
#[derive(Debug, PartialEq, Eq)]
pub struct UriParts {
    /// The scheme, such as `http`.
    pub scheme: Option<String>,
    /// The authority: the host, with the port where one is given.
    pub authority: Option<String>,
    /// The host in the authority.
    pub host: Option<String>,
    /// The port in the authority.
    pub port: Option<u16>,
    /// The path, with the query where there is one.
    pub path_and_query: Option<String>,
}

/// What a `UriParts` holds, as plain values.
pub ghost struct UriPartsView {
    pub scheme: Option<Seq<char>>,
    pub authority: Option<Seq<char>>,
    pub host: Option<Seq<char>>,
    pub port: Option<u16>,
    pub path_and_query: Option<Seq<char>>,
}

impl View for UriParts {
    type V = UriPartsView;

    open spec fn view(&self) -> UriPartsView {
        UriPartsView {
            scheme: self.scheme.deep_view(),
            authority: self.authority.deep_view(),
            host: self.host.deep_view(),
            port: self.port,
            path_and_query: self.path_and_query.deep_view(),
        }
    }
}

impl DeepView for UriParts {
    type V = UriPartsView;

    open spec fn deep_view(&self) -> UriPartsView {
        self@
    }
}

/// The parts that the `http` crate finds in a text: the `FromStr` of
/// `http::Uri`, and of a URI that it accepts the results of `scheme_str`,
/// `authority`, `host`, `port_u16` and `path_and_query`. A text that it does
/// not accept as a URI has no parts.
pub uninterp spec fn uri_parts(text: Seq<char>) -> Option<UriPartsView>;

/// Parses a URI with the `FromStr` of `http::Uri` and takes its scheme, its
/// authority, its host and its path with the query as text, and its port as a
/// number.
#[verifier::external_body]
fn split_uri(text: &str) -> (parts: Option<UriParts>)
    ensures
        parts.deep_view() == uri_parts(text@),
{
    match text.parse::<http::Uri>() {
        Ok(uri) => Some(UriParts {
            scheme: uri.scheme_str().map(|s| s.to_string()),
            authority: uri.authority().map(|a| a.as_str().to_string()),
            host: uri.host().map(|h| h.to_string()),
            port: uri.port_u16(),
            path_and_query: uri.path_and_query().map(|p| p.as_str().to_string()),
        }),
        Err(_) => None,
    }
}

/// The address that a request is forwarded to: scheme and authority are those
/// of the upstream, path and query those of the request, `/` where the
/// request has none. There is no such address where the upstream lacks a
/// scheme or an authority.
pub open spec fn upstream_url_of(upstream: UriPartsView, request: UriPartsView) -> Option<
    Seq<char>,
> {
    if upstream.scheme is Some && upstream.authority is Some {
        Some(
            upstream.scheme->0 + "://"@ + upstream.authority->0 + (match request.path_and_query {
                Some(path) => path,
                None => "/"@,
            }),
        )
    } else {
        None
    }
}

/// The address that a request is forwarded to, from the parts of the
/// upstream's address and of the request target.
pub fn upstream_url(upstream: &UriParts, request: &UriParts) -> (url: Option<String>)
    ensures
        url.deep_view() == upstream_url_of(upstream@, request@),
{
    match (&upstream.scheme, &upstream.authority) {
        (Some(scheme), Some(authority)) => {
            let mut url = join(scheme.as_str(), "://");
            url.append(authority.as_str());
            match &request.path_and_query {
                Some(path) => url.append(path.as_str()),
                None => url.append("/"),
            }
            Some(url)
        },
        _ => None,
    }
}

/// The header that tells the upstream for whom a request is forwarded:
/// `X-Forwarded-For` with the address of the client, and none where that
/// address is not known.
pub open spec fn forwarded_for_of(peer_ip: Option<Seq<char>>) -> Option<(Seq<char>, Seq<char>)> {
    match peer_ip {
        Some(ip) => Some(("X-Forwarded-For"@, ip)),
        None => None,
    }
}

/// The header to attach to a request that is sent upstream.
pub fn forwarded_for(peer_ip: Option<&str>) -> (header: Option<(String, String)>)
    ensures
        header.deep_view() == forwarded_for_of(peer_ip.deep_view()),
{
    match peer_ip {
        Some(ip) => Some((String::from_str("X-Forwarded-For"), String::from_str(ip))),
        None => None,
    }
}

/// The value of the `Host` header of a request to the upstream: the host of
/// the upstream, and behind a colon its port, where its address names one.
pub open spec fn host_header_of(host: Seq<char>, port: Option<u16>) -> Seq<char> {
    match port {
        Some(port) => host + ":"@ + decimal_of(port as nat),
        None => host,
    }
}

/// The value of the `Host` header of a request to the upstream.
pub fn host_header(host: &str, port: Option<u16>) -> (value: String)
    ensures
        value@ == host_header_of(host@, port),
{
    match port {
        Some(port) => {
            let mut value = join(host, ":");
            value.append(decimal(port as usize).as_str());
            value
        },
        None => String::from_str(host),
    }
}

/// The headers that are set on a request before it is sent upstream: `Host`
/// with the value that `host_header_of` gives, and the header that
/// `forwarded_for_of` gives, where it gives one.
pub open spec fn attached_of(
    host: Seq<char>,
    port: Option<u16>,
    peer_ip: Option<Seq<char>>,
) -> Seq<(Seq<char>, Seq<char>)> {
    match forwarded_for_of(peer_ip) {
        Some(header) => seq![("Host"@, host_header_of(host, port)), header],
        None => seq![("Host"@, host_header_of(host, port))],
    }
}

/// The headers to set on a request before it is sent upstream.
pub fn attached(host: &str, port: Option<u16>, peer_ip: Option<&str>) -> (headers: Vec<
    (String, String),
>)
    ensures
        headers.deep_view() == attached_of(host@, port, peer_ip.deep_view()),
{
    let mut headers: Vec<(String, String)> = Vec::new();
    headers.push((String::from_str("Host"), host_header(host, port)));
    match forwarded_for(peer_ip) {
        Some(header) => {
            let ghost added = header.deep_view();
            headers.push(header);
            assert(headers.deep_view() =~= seq![("Host"@, host_header_of(host@, port)), added]);
        },
        None => {
            assert(headers.deep_view() =~= seq![("Host"@, host_header_of(host@, port))]);
        },
    }
    headers
}

/// Where and how a request is sent: the address of the request as a whole,
/// the host and port to connect to, and the headers to set on it.
#[derive(Debug, PartialEq, Eq)]
pub struct Target {
    /// The address that the request is forwarded to.
    pub url: String,
    /// The host of the upstream.
    pub host: String,
    /// The port of the upstream.
    pub port: u16,
    /// The headers that are set on the request before it is sent, each in
    /// the place of what the request held under that name.
    pub attach: Vec<(String, String)>,
}

/// What a `Target` holds, as plain values.
pub ghost struct TargetView {
    pub url: Seq<char>,
    pub host: Seq<char>,
    pub port: u16,
    pub attach: Seq<(Seq<char>, Seq<char>)>,
}

impl View for Target {
    type V = TargetView;

    open spec fn view(&self) -> TargetView {
        TargetView {
            url: self.url@,
            host: self.host@,
            port: self.port,
            attach: self.attach.deep_view(),
        }
    }
}

impl DeepView for Target {
    type V = TargetView;

    open spec fn deep_view(&self) -> TargetView {
        self@
    }
}

/// Where and how a request is sent, from the parts of the upstream's address
/// and of the request target, and the address of the client: to the address
/// that `upstream_url_of` gives, at the host of the upstream and at its port,
/// which is 80 where its address names none, with the headers that
/// `attached_of` gives.
pub open spec fn target_of(
    upstream: UriPartsView,
    request: UriPartsView,
    peer_ip: Option<Seq<char>>,
) -> Option<TargetView> {
    match (upstream_url_of(upstream, request), upstream.host) {
        (Some(url), Some(host)) => Some(
            TargetView {
                url,
                host,
                port: match upstream.port {
                    Some(port) => port,
                    None => 80,
                },
                attach: attached_of(host, upstream.port, peer_ip),
            },
        ),
        _ => None,
    }
}

/// Where and how a request is sent, from the parts of the upstream's address
/// and of the request target, and the address of the client.
pub fn target_for(upstream: &UriParts, request: &UriParts, peer_ip: Option<&str>) -> (target:
    Option<Target>)
    ensures
        target.deep_view() == target_of(upstream@, request@, peer_ip.deep_view()),
{
    match (upstream_url(upstream, request), &upstream.host) {
        (Some(url), Some(host)) => Some(
            Target {
                url,
                host: host.clone(),
                port: match upstream.port {
                    Some(port) => port,
                    None => 80,
                },
                attach: attached(host.as_str(), upstream.port, peer_ip),
            },
        ),
        _ => None,
    }
}

/// Where and how a request with target `target` is sent when the upstream is
/// at `forward_to` and the client at `peer_ip`; nowhere where the address of
/// the upstream or the target is no URI.
pub open spec fn forward_target_of(
    forward_to: Seq<char>,
    target: Seq<char>,
    peer_ip: Option<Seq<char>>,
) -> Option<TargetView> {
    match (uri_parts(forward_to), uri_parts(target)) {
        (Some(upstream), Some(request)) => target_of(upstream, request, peer_ip),
        _ => None,
    }
}

/// Where and how a request is sent.
pub fn forward_target(forward_to: &str, target: &str, peer_ip: Option<&str>) -> (sent: Option<
    Target,
>)
    ensures
        sent.deep_view() == forward_target_of(forward_to@, target@, peer_ip.deep_view()),
{
    match split_uri(forward_to) {
        Some(upstream) => match split_uri(target) {
            Some(request) => target_for(&upstream, &request, peer_ip),
            None => None,
        },
        None => None,
    }
}

/// The authority in the target of a request; none where the target is no URI
/// or names no authority.
pub open spec fn authority_of(target: Seq<char>) -> Option<Seq<char>> {
    match uri_parts(target) {
        Some(parts) => parts.authority,
        None => None,
    }
}

/// The authority that the target of a `CONNECT` request names.
pub fn host_addr(target: &str) -> (addr: Option<String>)
    ensures
        addr.deep_view() == authority_of(target@),
{
    match split_uri(target) {
        Some(parts) => parts.authority,
        None => None,
    }
}

/// The part of a request target before its query: the characters before the
/// first question mark.
pub open spec fn before_query(target: Seq<char>) -> Seq<char>
    decreases target.len(),
{
    if target.len() == 0 || target[0] == '?' {
        Seq::empty()
    } else {
        seq![target[0]] + before_query(target.drop_first())
    }
}

/// The path of a request target: what stands before the query in the path
/// and query that the target holds as a URI. A target that is no URI, or
/// holds neither, has the empty path.
pub open spec fn request_path_of(target: Seq<char>) -> Seq<char> {
    match uri_parts(target) {
        Some(parts) => match parts.path_and_query {
            Some(path) => before_query(path),
            None => Seq::empty(),
        },
        None => Seq::empty(),
    }
}

/// The part of a text before its first question mark.
pub fn strip_query(text: &str) -> (path: String)
    ensures
        path@ == before_query(text@),
{
    let chars = chars_of(text);
    let mut n: usize = 0;
    proof {
        assert(text@.skip(0) == text@);
        assert(text@.take(0) + before_query(text@) =~= before_query(text@));
    }
    while n < chars.len() && chars[n] != '?'
        invariant
            n <= chars.len(),
            chars@ == text@,
            before_query(text@) == text@.take(n as int) + before_query(text@.skip(n as int)),
        decreases chars.len() - n,
    {
        proof {
            let rest = text@.skip(n as int);
            assert(rest[0] == text@[n as int]);
            assert(rest.drop_first() == text@.skip(n + 1));
            assert(text@.take(n as int) + seq![rest[0]] =~= text@.take(n + 1));
            assert(text@.take(n as int) + (seq![rest[0]] + before_query(rest.drop_first()))
                =~= text@.take(n + 1) + before_query(text@.skip(n + 1)));
        }
        n += 1;
    }
    proof {
        let rest = text@.skip(n as int);
        if n < chars.len() {
            assert(rest[0] == text@[n as int]);
        }
        assert(before_query(rest) =~= Seq::empty());
        assert(text@.take(n as int) + before_query(rest) =~= text@.take(n as int));
    }
    string_of(&chars, 0, n)
}

/// The path of a request target.
pub fn request_path(target: &str) -> (path: String)
    ensures
        path@ == request_path_of(target@),
{
    match split_uri(target) {
        Some(parts) => match parts.path_and_query {
            Some(path) => strip_query(path.as_str()),
            None => String::new(),
        },
        None => String::new(),
    }
}

/// Whether a header name is `Connection`, in whatever case.
pub open spec fn is_connection(name: Seq<char>) -> bool {
    lower_text(name) == lower_text("connection"@)
}

/// The headers without those named `Connection`, in their order.
pub open spec fn without_connection<T>(headers: Seq<(Seq<char>, T)>) -> Seq<(Seq<char>, T)>
    decreases headers.len(),
{
    if headers.len() == 0 {
        Seq::empty()
    } else if is_connection(headers.last().0) {
        without_connection(headers.drop_last())
    } else {
        without_connection(headers.drop_last()).push(headers.last())
    }
}

/// What is left of the headers has no header named `Connection`, and nothing
/// that was not among the headers.
pub proof fn lemma_connection_is_stripped<T>(headers: Seq<(Seq<char>, T)>)
    ensures
        forall|i: int|
            0 <= i < without_connection(headers).len() ==> !is_connection(
                (#[trigger] without_connection(headers)[i]).0,
            ) && headers.contains(without_connection(headers)[i]),
        forall|i: int|
            0 <= i < headers.len() && !is_connection((#[trigger] headers[i]).0)
                ==> without_connection(headers).contains(headers[i]),
    decreases headers.len(),
{
    if headers.len() > 0 {
        let front = headers.drop_last();
        lemma_connection_is_stripped(front);
        let kept = without_connection(headers);
        assert forall|i: int| 0 <= i < kept.len() implies !is_connection((#[trigger] kept[i]).0)
            && headers.contains(kept[i]) by {
            if i < without_connection(front).len() {
                let j = choose|j: int|
                    0 <= j < front.len() && front[j] == without_connection(front)[i];
                assert(headers[j] == kept[i]);
            } else {
                assert(headers[headers.len() - 1] == kept[i]);
            }
        }
        assert forall|i: int|
            0 <= i < headers.len() && !is_connection(
                (#[trigger] headers[i]).0,
            ) implies kept.contains(headers[i]) by {
            if i < front.len() {
                assert(front[i] == headers[i]);
                let j = choose|j: int|
                    0 <= j < without_connection(front).len() && without_connection(front)[j]
                        == front[i];
                assert(kept[j] == headers[i]);
            } else {
                assert(kept[kept.len() - 1] == headers[i]);
            }
        }
    }
}

/// Drops the headers named `Connection`: they speak of one connection and are
/// never passed on, neither to the client nor into a record.
pub fn strip_connection<V: DeepView>(headers: Vec<(String, V)>) -> (kept: Vec<(String, V)>)
    ensures
        kept.deep_view() == without_connection(headers.deep_view()),
{
    let ghost all = headers.deep_view();
    let ghost given = headers@;
    let mut kept: Vec<(String, V)> = Vec::new();
    assert(kept.deep_view() =~= Seq::empty());
    assert(all.take(0) =~= Seq::empty());
    for header in it: headers
        invariant
            it.seq() == given,
            all.len() == given.len(),
            forall|j: int| 0 <= j < given.len() ==> all[j] == (given[j].0@, given[j].1.deep_view()),
            kept.deep_view() == without_connection(all.take(it.index())),
    {
        proof {
            let n = it.index();
            assert(all.take(n + 1).drop_last() == all.take(n));
            assert(all.take(n + 1).last() == all[n]);
        }
        let ghost before = kept.deep_view();
        if !eq_ignore_case(header.0.as_str(), "connection") {
            kept.push(header);
            assert(kept.deep_view() =~= before.push((header.0@, header.1.deep_view())));
        }
    }
    assert(all.take(all.len() as int) == all);
    kept
}

/// How an exchange with the upstream can fail.
#[derive(Debug, Clone, Copy, PartialEq, Eq, Structural)]
pub enum UpstreamError {
    /// The upstream refused the connection or could not be reached.
    Unreachable,
    /// The upstream did not answer in time.
    Timeout,
    /// The upstream answered with something that is no HTTP response.
    Protocol,
}

/// The answer that tells the client of a failed exchange with the upstream:
/// 504 after a timeout, 502 otherwise.
pub open spec fn failure_of(error: UpstreamError) -> ResponseView {
    match error {
        UpstreamError::Unreachable => plain(502, "Upstream unreachable"@),
        UpstreamError::Timeout => plain(504, "Upstream timeout"@),
        UpstreamError::Protocol => plain(502, "Upstream protocol error"@),
    }
}

/// The answer that tells the client of a failed exchange with the upstream.
pub fn failure_response(error: UpstreamError) -> (response: Response)
    ensures
        response@ == failure_of(error),
        500 <= response.status <= 599,
{
    match error {
        UpstreamError::Unreachable => Response::text(502, "Upstream unreachable"),
        UpstreamError::Timeout => Response::text(504, "Upstream timeout"),
        UpstreamError::Protocol => Response::text(502, "Upstream protocol error"),
    }
}

} // verus!
