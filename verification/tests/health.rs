use registry_index::config::Config;
use registry_index::service::healthcheck::{
    dns_probe_name, health_check, whois_probe_ok, whois_probe_request, HealthCheckResult,
    STATUS_OK, STATUS_SERVICE_UNAVAILABLE,
};
use registry_index::store::memory::MemoryStore;
use registry_index::store::Store;

#[test]
fn readiness() {
    let mut store = MemoryStore::new();
    let before = health_check(&store, true, true);
    assert!(!before.store_ready);
    assert!(before.dns_ready);
    assert!(before.whois_ready);
    assert_eq!(before.status_code(), 503);
    store.set(&Vec::new());
    let after = health_check(&store, true, true);
    assert!(after.store_ready);
    assert_eq!(after.status_code(), 200);
}

#[test]
fn status_is_ok_only_if_every_probe_succeeded() {
    assert_eq!(STATUS_OK, 200);
    assert_eq!(STATUS_SERVICE_UNAVAILABLE, 503);
    for store_ready in [false, true] {
        for dns_ready in [false, true] {
            for whois_ready in [false, true] {
                let result = HealthCheckResult {
                    store_ready,
                    dns_ready,
                    whois_ready,
                };
                let expected = if store_ready && dns_ready && whois_ready {
                    200
                } else {
                    503
                };
                assert_eq!(result.status_code(), expected);
            }
        }
    }
}

#[test]
fn probes_report_into_the_result() {
    let mut store = MemoryStore::new();
    store.set(&Vec::new());
    let result = health_check(&store, false, true);
    assert_eq!(
        result,
        HealthCheckResult {
            store_ready: true,
            dns_ready: false,
            whois_ready: true
        }
    );
    assert_eq!(result.status_code(), 503);
    assert_eq!(health_check(&store, true, false).status_code(), 503);
}

#[test]
fn what_the_probes_send_and_expect() {
    assert_eq!(dns_probe_name("catmunch"), "ns.catmunch.");
    assert_eq!(dns_probe_name(""), "ns..");
    assert_eq!(whois_probe_request(), "whoami\n");
    assert!(whois_probe_ok("Default Node", "Default Node"));
    assert!(!whois_probe_ok("Default Node\n", "Default Node"));
    assert!(!whois_probe_ok("", "Default Node"));
    assert!(whois_probe_ok("", ""));
}

#[test]
fn default_options() {
    let config = Config::with_defaults("https://example.org/registry.git".to_string(), 8080);
    assert_eq!(config.git_path, "registry");
    assert_eq!(config.git_branch, "main");
    assert_eq!(config.git_repo, "https://example.org/registry.git");
    assert!(config.dns.is_empty());
    assert!(config.whois.is_empty());
    assert_eq!(config.interval, 300);
    assert_eq!(config.node_name, "Default Node");
    assert_eq!(config.health_check_port, 8080);
}
