use registry_index::resource::autnum::Autnum;
use registry_index::resource::domain::{Domain, NS};
use registry_index::resource::inet6num::Inet6num;
use registry_index::resource::inetnum::Inetnum;
use registry_index::resource::route::Route;
use registry_index::resource::Resource;
use registry_index::service::whois::{
    classify, decide, domain_label, handle_whois_request, help_line, no_match, read_error_line,
    respond, str_eq, WhoisQuery, WhoisReply, WHOIS_REQUEST_MAX_LENGTH,
};
use registry_index::store::memory::MemoryStore;
use registry_index::store::Store;
use registry_index::util::cidr::{Ipv4CidrWrapper, Ipv6CidrWrapper};

const HELP: &str = "Supported type: autnum (e.g. AS64601), domain (e.g. meow.catmunch), inetnum/route (e.g. 10.0.0.1, 10.0.0.0/16, fc75:adfb:1234::1, fc75:adfb:1234::/48)\r\n";

fn registry() -> MemoryStore {
    let mut store = MemoryStore::new();
    store.set(&vec![
        Resource::Autnum(Autnum {
            autnum: "AS64601".to_string(),
            name: "Example".to_string(),
            description: None,
        }),
        Resource::Domain(Domain {
            domain: "meow.catmunch".to_string(),
            description: Some("cats".to_string()),
            ns: vec![NS {
                server: "ns1.meow.catmunch".to_string(),
                a: Some(0x0a00_0001),
                aaaa: None,
            }],
        }),
        Resource::Inetnum(Inetnum {
            cidr: Ipv4CidrWrapper::from_str("10.1.2.0/24").unwrap(),
            description: Some("twentyfour".to_string()),
            ns: None,
        }),
        Resource::Inetnum(Inetnum {
            cidr: Ipv4CidrWrapper::from_str("10.1.0.0/16").unwrap(),
            description: Some("sixteen".to_string()),
            ns: None,
        }),
        Resource::Route(Route {
            cidr: Ipv4CidrWrapper::from_str("10.1.0.0/16").unwrap(),
            description: None,
            origin: vec!["AS64601".to_string()],
        }),
        Resource::Inet6num(Inet6num {
            cidr: Ipv6CidrWrapper::from_str("fc75:adfb:1234::/48").unwrap(),
            description: Some("six".to_string()),
            ns: None,
        }),
    ]);
    store
}

fn text_of(reply: WhoisReply) -> String {
    match reply {
        WhoisReply::Text(text) => text,
        other => panic!("a text was expected, not {:?}", other),
    }
}

#[test]
fn lines_and_limits() {
    assert_eq!(WHOIS_REQUEST_MAX_LENGTH, 128);
    assert_eq!(help_line(), HELP);
    assert_eq!(
        read_error_line(),
        "An error occurred when reading the request, please try again.\r\n"
    );
    assert_eq!(no_match("as1"), "No match for as1\r\n");
    assert_eq!(no_match(""), "No match for \r\n");
}

#[test]
fn texts_are_compared_by_their_characters() {
    assert!(str_eq("", ""));
    assert!(str_eq("whoami", "whoami"));
    assert!(!str_eq("whoami", "whoam"));
    assert!(!str_eq("whoami", "whoamI"));
    assert!(!str_eq("", "x"));
    assert!(str_eq("n\u{f6}de", "n\u{f6}de"));
    assert!(!str_eq("n\u{f6}de", "node"));
}

#[test]
fn the_label_before_the_top_level_label() {
    assert_eq!(domain_label("meow.catmunch", "catmunch"), Some("meow"));
    assert_eq!(domain_label("a.b.catmunch", "catmunch"), Some("a.b"));
    assert_eq!(domain_label(".catmunch", "catmunch"), Some(""));
    assert_eq!(domain_label("catmunch", "catmunch"), None);
    assert_eq!(domain_label("meowcatmunch", "catmunch"), None);
    assert_eq!(domain_label("meow.catmunch.", "catmunch"), None);
    assert_eq!(domain_label("meow.catmunc", "catmunch"), None);
    assert_eq!(domain_label("", "catmunch"), None);
    assert_eq!(domain_label("meow.", ""), Some("meow"));
    assert_eq!(domain_label("m\u{e9}ow.catmunch", "catmunch"), Some("m\u{e9}ow"));
}

#[test]
fn decisions_follow_the_order_of_the_kinds() {
    let v4 = Ipv4CidrWrapper::new(0x0a00_0000, 8).unwrap();
    let v6 = Ipv6CidrWrapper::new(0, 0).unwrap();
    assert!(matches!(
        decide("whoami", Some(true), "WHOAMI".to_string(), Some(true), Some(v4), Some(v6)),
        WhoisQuery::WhoAmI
    ));
    match decide("x", Some(true), "X".to_string(), Some(true), Some(v4), Some(v6)) {
        WhoisQuery::Autnum(key) => assert_eq!(key, "X"),
        other => panic!("an autnum was expected, not {:?}", other),
    }
    match decide("x", Some(false), "X".to_string(), Some(true), Some(v4), Some(v6)) {
        WhoisQuery::Domain(key) => assert_eq!(key, "x"),
        other => panic!("a domain was expected, not {:?}", other),
    }
    match decide("x", None, "X".to_string(), Some(false), Some(v4), Some(v6)) {
        WhoisQuery::Inetnum(cidr) => assert_eq!(cidr, v4),
        other => panic!("an IPv4 prefix was expected, not {:?}", other),
    }
    match decide("x", None, "X".to_string(), None, None, Some(v6)) {
        WhoisQuery::Inet6num(cidr) => assert_eq!(cidr, v6),
        other => panic!("an IPv6 prefix was expected, not {:?}", other),
    }
    assert!(matches!(
        decide("x", None, "X".to_string(), None, None, None),
        WhoisQuery::Unknown
    ));
}

#[test]
fn requests_are_classified() {
    assert!(matches!(classify("whoami", "catmunch"), WhoisQuery::WhoAmI));
    match classify("as64601", "catmunch") {
        WhoisQuery::Autnum(key) => assert_eq!(key, "AS64601"),
        other => panic!("an autnum was expected, not {:?}", other),
    }
    match classify("meow.catmunch", "catmunch") {
        WhoisQuery::Domain(key) => assert_eq!(key, "meow.catmunch"),
        other => panic!("a domain was expected, not {:?}", other),
    }
    match classify("my-zone_1.catmunch", "catmunch") {
        WhoisQuery::Domain(key) => assert_eq!(key, "my-zone_1.catmunch"),
        other => panic!("a domain was expected, not {:?}", other),
    }
    match classify("10.1.2.3/32", "catmunch") {
        WhoisQuery::Inetnum(cidr) => {
            assert_eq!(cidr, Ipv4CidrWrapper::new(0x0a01_0203, 32).unwrap())
        }
        other => panic!("an IPv4 prefix was expected, not {:?}", other),
    }
    match classify("10.0.0.1", "catmunch") {
        WhoisQuery::Inetnum(cidr) => {
            assert_eq!(cidr, Ipv4CidrWrapper::new(0x0a00_0001, 32).unwrap())
        }
        other => panic!("an IPv4 prefix was expected, not {:?}", other),
    }
    match classify("fc75:adfb:1234::/48", "catmunch") {
        WhoisQuery::Inet6num(cidr) => assert_eq!(
            cidr,
            Ipv6CidrWrapper::new(0xfc75_adfb_1234_0000_0000_0000_0000_0000, 48).unwrap()
        ),
        other => panic!("an IPv6 prefix was expected, not {:?}", other),
    }
}

#[test]
fn requests_that_are_not_known() {
    for request in [
        "",
        "as",
        "asx1",
        "as64601 ",
        "xas64601",
        "as-1",
        "as64601\nq",
        "hello world",
        "a.b.catmunch",
        ".catmunch",
        "meow.catmunch.",
        "meow!.catmunch",
        "meow.example",
        "10.1.2.3/16",
        "fc75::1/16",
        "who am i",
    ] {
        assert!(
            matches!(classify(request, "catmunch"), WhoisQuery::Unknown),
            "{:?}",
            request
        );
    }
}

#[test]
fn whoami_gives_the_node_name_and_nothing_else() {
    let store = registry();
    for node_name in ["Default Node", "", "node-1\n", "  spaced  ", "K\u{f6}ln"] {
        for line in ["whoami\n", "whoami", "  WhoAmI \r\n", "WHOAMI\r\n", "\twhoami"] {
            let reply = handle_whois_request(&store, node_name, "catmunch", line);
            assert_eq!(text_of(reply), node_name);
        }
    }
    let empty = MemoryStore::new();
    assert_eq!(
        text_of(handle_whois_request(&empty, "n", "catmunch", "whoami\n")),
        "n"
    );
}

#[test]
fn whois_asn() {
    let store = registry();
    match handle_whois_request(&store, "node", "catmunch", "as64601\n") {
        WhoisReply::Autnum(autnum) => {
            assert_eq!(autnum.autnum, "AS64601");
            assert_eq!(autnum.name, "Example");
            assert_eq!(autnum.description, None);
        }
        other => panic!("an autnum was expected, not {:?}", other),
    }
    match handle_whois_request(&store, "node", "catmunch", " AS64601\r\n") {
        WhoisReply::Autnum(autnum) => assert_eq!(autnum.name, "Example"),
        other => panic!("an autnum was expected, not {:?}", other),
    }
    assert_eq!(
        text_of(handle_whois_request(&store, "node", "catmunch", "AS64602\n")),
        "No match for as64602\r\n"
    );
}

#[test]
fn whois_domain() {
    let store = registry();
    match handle_whois_request(&store, "node", "catmunch", "Meow.Catmunch\r\n") {
        WhoisReply::Domain(domain) => {
            assert_eq!(domain.domain, "meow.catmunch");
            assert_eq!(domain.description, Some("cats".to_string()));
            assert_eq!(domain.ns.len(), 1);
            assert_eq!(domain.ns[0].server, "ns1.meow.catmunch");
        }
        other => panic!("a domain was expected, not {:?}", other),
    }
    assert_eq!(
        text_of(handle_whois_request(&store, "node", "catmunch", "purr.catmunch\n")),
        "No match for purr.catmunch\r\n"
    );
    assert_eq!(
        text_of(handle_whois_request(&store, "node", "dn42", "meow.catmunch\n")),
        HELP
    );
}

#[test]
fn whois_cidr() {
    let store = registry();
    match handle_whois_request(&store, "node", "catmunch", "10.1.2.3/32\n") {
        WhoisReply::Inetnums { inetnums, routes } => {
            assert_eq!(inetnums.len(), 2);
            assert_eq!(
                inetnums[0].cidr,
                Ipv4CidrWrapper::from_str("10.1.0.0/16").unwrap()
            );
            assert_eq!(inetnums[0].description, Some("sixteen".to_string()));
            assert_eq!(
                inetnums[1].cidr,
                Ipv4CidrWrapper::from_str("10.1.2.0/24").unwrap()
            );
            assert_eq!(routes.len(), 1);
            assert_eq!(routes[0].origin, vec!["AS64601".to_string()]);
        }
        other => panic!("lists of IPv4 objects were expected, not {:?}", other),
    }
    match handle_whois_request(&store, "node", "catmunch", "192.168.0.0/16\n") {
        WhoisReply::Inetnums { inetnums, routes } => {
            assert!(inetnums.is_empty());
            assert!(routes.is_empty());
        }
        other => panic!("lists of IPv4 objects were expected, not {:?}", other),
    }
    match handle_whois_request(&store, "node", "catmunch", "FC75:ADFB:1234::1\n") {
        WhoisReply::Inet6nums { inet6nums, route6s } => {
            assert_eq!(inet6nums.len(), 1);
            assert_eq!(inet6nums[0].description, Some("six".to_string()));
            assert!(route6s.is_empty());
        }
        other => panic!("lists of IPv6 objects were expected, not {:?}", other),
    }
}

#[test]
fn whois_unknown_input_gives_the_help_line() {
    let store = registry();
    for line in ["\n", "help\n", "hello world\r\n", "10.1.2.3/16\n", "as\n"] {
        assert_eq!(
            text_of(handle_whois_request(&store, "node", "catmunch", line)),
            HELP
        );
    }
}

#[test]
fn replies_to_queries() {
    let store = registry();
    assert_eq!(
        text_of(respond(&store, "node", "whoami", WhoisQuery::WhoAmI)),
        "node"
    );
    assert_eq!(
        text_of(respond(&store, "node", "anything", WhoisQuery::Unknown)),
        HELP
    );
    assert_eq!(
        text_of(respond(
            &store,
            "node",
            "as1",
            WhoisQuery::Autnum("AS1".to_string())
        )),
        "No match for as1\r\n"
    );
    assert!(matches!(
        respond(
            &store,
            "node",
            "as64601",
            WhoisQuery::Autnum("AS64601".to_string())
        ),
        WhoisReply::Autnum(_)
    ));
    assert_eq!(
        text_of(respond(
            &store,
            "node",
            "x.catmunch",
            WhoisQuery::Domain("x.catmunch".to_string())
        )),
        "No match for x.catmunch\r\n"
    );
    assert!(store.is_ready());
}
