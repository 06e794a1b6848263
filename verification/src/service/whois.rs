use crate::resource::autnum::{Autnum, AutnumView};
use crate::resource::domain::{Domain, DomainView};
use crate::resource::inet6num::{Inet6num, Inet6numView};
use crate::resource::inetnum::{Inetnum, InetnumView};
use crate::resource::route::{Route, RouteView};
use crate::resource::route6::{Route6, Route6View};
use crate::store::{
    inet6num_views, inetnum_views, route6_views, route_views, SnapshotView, Store,
};
use crate::util::cidr::{ipv4_cidr_text, ipv6_cidr_text, Ipv4CidrWrapper, Ipv6CidrWrapper};
use vstd::prelude::*;
use vstd::string::StringExecFns;

verus! {

/// The number of bytes of a request that the server reads at most.
pub const WHOIS_REQUEST_MAX_LENGTH: u64 = 128;

/// Whether the `regex` crate finds a match of a pattern in a text; `None`
/// where it does not accept the pattern.
pub uninterp spec fn regex_match(pattern: Seq<char>, text: Seq<char>) -> Option<bool>;

/// What `str::trim` leaves of a text.
pub uninterp spec fn trimmed(text: Seq<char>) -> Seq<char>;

/// What `str::to_lowercase` makes of a text.
pub uninterp spec fn lowercased(text: Seq<char>) -> Seq<char>;

/// What `str::to_uppercase` makes of a text.
pub uninterp spec fn uppercased(text: Seq<char>) -> Seq<char>;

/// Compiles `pattern` with `regex::Regex::new` and asks `Regex::is_match`
/// whether `text` holds a match. Nothing is claimed of the outcome but that it
/// is the one that this pattern and this text always give.
#[verifier::external_body]
fn pattern_matches(pattern: &str, text: &str) -> (r: Option<bool>)
    ensures
        r == regex_match(pattern@, text@),
{
    match regex::Regex::new(pattern) {
        Ok(re) => Some(re.is_match(text)),
        Err(_) => None,
    }
}

/// `str::trim`: the text without the white space at its two ends, as std
/// tells white space. Nothing is claimed of the result but that it is the one
/// that this text always gives.
#[verifier::external_body]
fn trim_text(text: &str) -> (r: String)
    ensures
        r@ == trimmed(text@),
{
    text.trim().to_string()
}

/// `str::to_lowercase`: the text with each character in lower case, as std
/// maps it. Nothing is claimed of the result but that it is the one that this
/// text always gives.
#[verifier::external_body]
fn lowercase_text(text: &str) -> (r: String)
    ensures
        r@ == lowercased(text@),
{
    text.to_lowercase()
}

/// `str::to_uppercase`: the text with each character in upper case, as std
/// maps it. Nothing is claimed of the result but that it is the one that this
/// text always gives.
#[verifier::external_body]
fn uppercase_text(text: &str) -> (r: String)
    ensures
        r@ == uppercased(text@),
{
    text.to_uppercase()
}

/// The pattern of a request for an autnum.
pub open spec fn asn_pattern() -> Seq<char> {
    "^as(\\d+)$"@
}

/// The pattern of the label of a domain.
pub open spec fn label_pattern() -> Seq<char> {
    "^[a-zA-Z0-9-_]+$"@
}

/// What stands before `.` and `tld` at the end of a request, if the request
/// ends so.
pub open spec fn domain_label_spec(request: Seq<char>, tld: Seq<char>) -> Option<Seq<char>> {
    let n = request.len() - tld.len() - 1;
    if n >= 0 && request.skip(n) == seq!['.'] + tld {
        Some(request.take(n))
    } else {
        None
    }
}

/// What stands before `.` and `tld` at the end of a request, if the request
/// ends so.
pub fn domain_label<'a>(request: &'a str, tld: &str) -> (r: Option<&'a str>)
    ensures
        r.is_some() == domain_label_spec(request@, tld@).is_some(),
        r matches Some(label) ==> Some(label@) == domain_label_spec(request@, tld@),
{
    let n: usize = request.unicode_len();
    let t: usize = tld.unicode_len();
    if n <= t {
        return None;
    }
    let start: usize = n - t - 1;
    let ghost tail = request@.skip(start as int);
    let ghost wanted = seq!['.'] + tld@;
    if request.get_char(start) != '.' {
        proof {
            assert(tail[0] != wanted[0]);
        }
        return None;
    }
    let mut i: usize = 0;
    proof {
        assert(tail[0] == wanted[0]);
    }
    while i < t
        invariant
            i <= t,
            n == request@.len(),
            t == tld@.len(),
            start == n - t - 1,
            tail == request@.skip(start as int),
            wanted == seq!['.'] + tld@,
            tail.len() == t + 1,
            wanted.len() == t + 1,
            forall|j: int| 0 <= j <= i ==> tail[j] == wanted[j],
        decreases t - i,
    {
        if request.get_char(start + 1 + i) != tld.get_char(i) {
            proof {
                assert(tail[i + 1] != wanted[i + 1]);
            }
            return None;
        }
        i += 1;
    }
    proof {
        assert(tail =~= wanted);
        assert(request@.subrange(0, start as int) =~= request@.take(start as int));
    }
    Some(request.substring_char(0, start))
}

/// What a request asks for.
#[derive(Debug)]
pub enum WhoisQuery {
    /// The identifier of the node that answers.
    WhoAmI,
    /// The autnum under a key.
    Autnum(String),
    /// The domain under a key.
    Domain(String),
    /// The objects at the prefixes that cover an IPv4 prefix.
    Inetnum(Ipv4CidrWrapper),
    /// The objects at the prefixes that cover an IPv6 prefix.
    Inet6num(Ipv6CidrWrapper),
    /// Nothing that the server knows of.
    Unknown,
}

/// What a request asks for, with a prefix as an address and a length.
pub enum WhoisQueryView {
    WhoAmI,
    Autnum(Seq<char>),
    Domain(Seq<char>),
    Inetnum((u32, u8)),
    Inet6num((u128, u8)),
    Unknown,
}

impl View for WhoisQuery {
    type V = WhoisQueryView;

    open spec fn view(&self) -> WhoisQueryView {
        match self {
            WhoisQuery::WhoAmI => WhoisQueryView::WhoAmI,
            WhoisQuery::Autnum(key) => WhoisQueryView::Autnum(key@),
            WhoisQuery::Domain(key) => WhoisQueryView::Domain(key@),
            WhoisQuery::Inetnum(cidr) => WhoisQueryView::Inetnum(cidr.parts()),
            WhoisQuery::Inet6num(cidr) => WhoisQueryView::Inet6num(cidr.parts()),
            WhoisQuery::Unknown => WhoisQueryView::Unknown,
        }
    }
}

/// What a request asks for, given what the tests on it gave: the first that
/// fits of `whoami`, an autnum, a domain, an IPv4 prefix and an IPv6 prefix.
/// `asn` is the outcome of the match with the pattern of an autnum and
/// `asn_key` the request in upper case; `label` is the outcome of the match
/// of the domain's label, if the request ends with the top-level label;
/// `v4` and `v6` are what the request reads as a prefix.
pub open spec fn query_of(
    request: Seq<char>,
    asn: Option<bool>,
    asn_key: Seq<char>,
    label: Option<bool>,
    v4: Option<(u32, u8)>,
    v6: Option<(u128, u8)>,
) -> WhoisQueryView {
    if request == "whoami"@ {
        WhoisQueryView::WhoAmI
    } else if asn == Some(true) {
        WhoisQueryView::Autnum(asn_key)
    } else if label == Some(true) {
        WhoisQueryView::Domain(request)
    } else if v4 is Some {
        WhoisQueryView::Inetnum(v4.unwrap())
    } else if v6 is Some {
        WhoisQueryView::Inet6num(v6.unwrap())
    } else {
        WhoisQueryView::Unknown
    }
}

/// The outcome of the match of a domain's label: that of what stands before
/// `.` and `tld` in the request, if the request ends so.
pub open spec fn label_match(request: Seq<char>, tld: Seq<char>) -> Option<bool> {
    match domain_label_spec(request, tld) {
        Some(label) => regex_match(label_pattern(), label),
        None => None,
    }
}

/// What a request in its normal form asks for, with `tld` as the registry's
/// top-level label.
pub open spec fn classify_spec(request: Seq<char>, tld: Seq<char>) -> WhoisQueryView {
    query_of(
        request,
        regex_match(asn_pattern(), request),
        uppercased(request),
        label_match(request, tld),
        Ipv4CidrWrapper::from_parts_spec(ipv4_cidr_text(request)),
        Ipv6CidrWrapper::from_parts_spec(ipv6_cidr_text(request)),
    )
}

/// What a request asks for, given what the tests on it gave.
pub fn decide(
    request: &str,
    asn: Option<bool>,
    asn_key: String,
    label: Option<bool>,
    v4: Option<Ipv4CidrWrapper>,
    v6: Option<Ipv6CidrWrapper>,
) -> (r: WhoisQuery)
    ensures
        r@ == query_of(
            request@,
            asn,
            asn_key@,
            label,
            match v4 {
                Some(c) => Some(c.parts()),
                None => None,
            },
            match v6 {
                Some(c) => Some(c.parts()),
                None => None,
            },
        ),
{
    if str_eq(request, "whoami") {
        return WhoisQuery::WhoAmI;
    }
    match asn {
        Some(true) => {
            return WhoisQuery::Autnum(asn_key);
        },
        _ => {},
    }
    match label {
        Some(true) => {
            return WhoisQuery::Domain(String::from_str(request));
        },
        _ => {},
    }
    match v4 {
        Some(cidr) => {
            return WhoisQuery::Inetnum(cidr);
        },
        None => {},
    }
    match v6 {
        Some(cidr) => WhoisQuery::Inet6num(cidr),
        None => WhoisQuery::Unknown,
    }
}

/// Whether two texts hold the same characters.
pub fn str_eq(a: &str, b: &str) -> (r: bool)
    ensures
        r == (a@ == b@),
{
    let n: usize = a.unicode_len();
    if n != b.unicode_len() {
        return false;
    }
    let mut i: usize = 0;
    while i < n
        invariant
            i <= n,
            n == a@.len(),
            n == b@.len(),
            forall|j: int| 0 <= j < i ==> a@[j] == b@[j],
        decreases n - i,
    {
        if a.get_char(i) != b.get_char(i) {
            return false;
        }
        i += 1;
    }
    proof {
        assert(a@ =~= b@);
    }
    true
}

/// What a request in its normal form asks for, with `tld` as the registry's
/// top-level label.
pub fn classify(request: &str, tld: &str) -> (r: WhoisQuery)
    ensures
        r@ == classify_spec(request@, tld@),
{
    let asn = pattern_matches("^as(\\d+)$", request);
    let asn_key = uppercase_text(request);
    let label = match domain_label(request, tld) {
        Some(l) => pattern_matches("^[a-zA-Z0-9-_]+$", l),
        None => None,
    };
    let v4 = Ipv4CidrWrapper::from_str(request);
    let v6 = Ipv6CidrWrapper::from_str(request);
    decide(request, asn, asn_key, label, v4, v6)
}

/// What the server writes back. Where it is an object or lists of objects,
/// they are written as structured text.
#[derive(Debug)]
pub enum WhoisReply {
    Text(String),
    Autnum(Autnum),
    Domain(Domain),
    Inetnums { inetnums: Vec<Inetnum>, routes: Vec<Route> },
    Inet6nums { inet6nums: Vec<Inet6num>, route6s: Vec<Route6> },
}

/// What a reply holds.
pub enum WhoisReplyView {
    Text(Seq<char>),
    Autnum(AutnumView),
    Domain(DomainView),
    Inetnums { inetnums: Seq<InetnumView>, routes: Seq<RouteView> },
    Inet6nums { inet6nums: Seq<Inet6numView>, route6s: Seq<Route6View> },
}

impl View for WhoisReply {
    type V = WhoisReplyView;

    open spec fn view(&self) -> WhoisReplyView {
        match self {
            WhoisReply::Text(text) => WhoisReplyView::Text(text@),
            WhoisReply::Autnum(autnum) => WhoisReplyView::Autnum(autnum@),
            WhoisReply::Domain(domain) => WhoisReplyView::Domain(domain@),
            WhoisReply::Inetnums { inetnums, routes } => WhoisReplyView::Inetnums {
                inetnums: inetnum_views(inetnums@),
                routes: route_views(routes@),
            },
            WhoisReply::Inet6nums { inet6nums, route6s } => WhoisReplyView::Inet6nums {
                inet6nums: inet6num_views(inet6nums@),
                route6s: route6_views(route6s@),
            },
        }
    }
}

/// The line that says that the registry holds nothing under a request.
pub open spec fn no_match_line(request: Seq<char>) -> Seq<char> {
    "No match for "@ + request + "\r\n"@
}

/// The line that names the kinds of request that the server knows.
pub open spec fn help_line_spec() -> Seq<char> {
    "Supported type: autnum (e.g. AS64601), domain (e.g. meow.catmunch), inetnum/route (e.g. 10.0.0.1, 10.0.0.0/16, fc75:adfb:1234::1, fc75:adfb:1234::/48)\r\n"@
}

/// The line that names the kinds of request that the server knows.
pub fn help_line() -> (r: &'static str)
    ensures
        r@ == help_line_spec(),
{
    "Supported type: autnum (e.g. AS64601), domain (e.g. meow.catmunch), inetnum/route (e.g. 10.0.0.1, 10.0.0.0/16, fc75:adfb:1234::1, fc75:adfb:1234::/48)\r\n"
}

/// The line that the server writes where it could not read the request.
pub fn read_error_line() -> (r: &'static str)
    ensures
        r@ == "An error occurred when reading the request, please try again.\r\n"@,
{
    "An error occurred when reading the request, please try again.\r\n"
}

/// The reply to a request that asks for `query`: the node's identifier, the
/// object under the key or the line that reports none, the objects at the
/// covering prefixes with the shortest prefix first, or the help line.
pub open spec fn reply_spec(
    snapshot: SnapshotView,
    node_name: Seq<char>,
    request: Seq<char>,
    query: WhoisQueryView,
) -> WhoisReplyView {
    match query {
        WhoisQueryView::WhoAmI => WhoisReplyView::Text(node_name),
        WhoisQueryView::Autnum(key) => if snapshot.autnums.contains_key(key) {
            WhoisReplyView::Autnum(snapshot.autnums[key])
        } else {
            WhoisReplyView::Text(no_match_line(request))
        },
        WhoisQueryView::Domain(key) => if snapshot.domains.contains_key(key) {
            WhoisReplyView::Domain(snapshot.domains[key])
        } else {
            WhoisReplyView::Text(no_match_line(request))
        },
        WhoisQueryView::Inetnum(cidr) => WhoisReplyView::Inetnums {
            inetnums: snapshot.inetnums_covering(cidr),
            routes: snapshot.routes_covering(cidr),
        },
        WhoisQueryView::Inet6num(cidr) => WhoisReplyView::Inet6nums {
            inet6nums: snapshot.inet6nums_covering(cidr),
            route6s: snapshot.route6s_covering(cidr),
        },
        WhoisQueryView::Unknown => WhoisReplyView::Text(help_line_spec()),
    }
}

/// The line that says that the registry holds nothing under `request`.
pub fn no_match(request: &str) -> (r: String)
    ensures
        r@ == no_match_line(request@),
{
    let mut line: String = String::from_str("No match for ");
    line.append(request);
    line.append("\r\n");
    line
}

/// Answers from the store a request that asks for `query`. `request` is the
/// request in its normal form and `node_name` the identifier of this node.
pub fn respond<S: Store>(
    store: &S,
    node_name: &str,
    request: &str,
    query: WhoisQuery,
) -> (r: WhoisReply)
    ensures
        r@ == reply_spec(store.snapshot(), node_name@, request@, query@),
{
    match query {
        WhoisQuery::WhoAmI => WhoisReply::Text(String::from_str(node_name)),
        WhoisQuery::Autnum(key) => match store.get_autnum(key) {
            Some(autnum) => WhoisReply::Autnum(autnum),
            None => WhoisReply::Text(no_match(request)),
        },
        WhoisQuery::Domain(key) => match store.get_domain(key) {
            Some(domain) => WhoisReply::Domain(domain),
            None => WhoisReply::Text(no_match(request)),
        },
        WhoisQuery::Inetnum(cidr) => {
            let (inetnums, routes) = store.get_inetnum_prefixes(cidr);
            WhoisReply::Inetnums { inetnums, routes }
        },
        WhoisQuery::Inet6num(cidr) => {
            let (inet6nums, route6s) = store.get_inet6num_prefixes(cidr);
            WhoisReply::Inet6nums { inet6nums, route6s }
        },
        WhoisQuery::Unknown => WhoisReply::Text(String::from_str(help_line())),
    }
}

/// The normal form of a request line: without the white space at its ends,
/// in lower case.
pub open spec fn normal_form(line: Seq<char>) -> Seq<char> {
    lowercased(trimmed(line))
}

/// Answers one request line from the store. `node_name` is the identifier of
/// this node and `tld` the registry's top-level label. To `whoami` the reply
/// is the node's identifier and nothing else.
pub fn handle_whois_request<S: Store>(
    store: &S,
    node_name: &str,
    tld: &str,
    line: &str,
) -> (r: WhoisReply)
    ensures
        r@ == reply_spec(
            store.snapshot(),
            node_name@,
            normal_form(line@),
            classify_spec(normal_form(line@), tld@),
        ),
        normal_form(line@) == "whoami"@ ==> r@ == WhoisReplyView::Text(node_name@),
{
    let request = lowercase_text(trim_text(line).as_str());
    let query = classify(request.as_str(), tld);
    respond(store, node_name, request.as_str(), query)
}

} // verus!
