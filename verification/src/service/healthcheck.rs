use crate::service::whois::str_eq;
use crate::store::Store;
use vstd::prelude::*;
use vstd::string::StringExecFns;

verus! {

/// The HTTP status of a report in which every probe succeeded.
pub const STATUS_OK: u16 = 200;

/// The HTTP status of a report in which a probe failed.
pub const STATUS_SERVICE_UNAVAILABLE: u16 = 503;

/// The outcome of the three probes of the readiness endpoint.
#[derive(Clone, Copy, Debug, PartialEq, Eq, Structural)]
pub struct HealthCheckResult {
    pub store_ready: bool,
    pub dns_ready: bool,
    pub whois_ready: bool,
}

impl HealthCheckResult {
    /// The HTTP status that the report is sent with: 200 where all three
    /// probes succeeded, else 503.
    pub open spec fn status(self) -> u16 {
        if self.store_ready && self.dns_ready && self.whois_ready {
            STATUS_OK
        } else {
            STATUS_SERVICE_UNAVAILABLE
        }
    }

    /// The HTTP status that the report is sent with.
    pub fn status_code(&self) -> (r: u16)
        ensures
            r == self.status(),
    {
        if self.store_ready && self.whois_ready && self.dns_ready {
            STATUS_OK
        } else {
            STATUS_SERVICE_UNAVAILABLE
        }
    }
}

/// The readiness report: whether the store has published a snapshot, and the
/// outcomes of the DNS and the WHOIS probe.
pub fn health_check<S: Store>(
    store: &S,
    dns_ready: bool,
    whois_ready: bool,
) -> (r: HealthCheckResult)
    ensures
        r == (HealthCheckResult { store_ready: store.snapshot().ready, dns_ready, whois_ready }),
{
    HealthCheckResult { store_ready: store.is_ready(), dns_ready, whois_ready }
}

/// The name that the DNS probe asks for: `ns` under the registry's top-level
/// label, fully qualified.
pub fn dns_probe_name(tld: &str) -> (r: String)
    ensures
        r@ == "ns."@ + tld@ + "."@,
{
    let mut name: String = String::from_str("ns.");
    name.append(tld);
    name.append(".");
    name
}

/// The request line that the WHOIS probe sends.
pub fn whois_probe_request() -> (r: &'static str)
    ensures
        r@ == "whoami\n"@,
{
    "whoami\n"
}

/// The WHOIS probe succeeds where the reply is this node's identifier and
/// nothing else.
pub fn whois_probe_ok(reply: &str, node_name: &str) -> (r: bool)
    ensures
        r == (reply@ == node_name@),
{
    str_eq(reply, node_name)
}

} // verus!
