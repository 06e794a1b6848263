use registry_index::resource::autnum::Autnum;
use registry_index::resource::domain::{Domain, NS};
use registry_index::resource::inet6num::Inet6num;
use registry_index::resource::inetnum::Inetnum;
use registry_index::resource::route::Route;
use registry_index::resource::route6::Route6;
use registry_index::resource::Resource;
use registry_index::store::memory::iptrie::{bit_of, IPTrie, Slot};
use registry_index::store::memory::{MemoryStore, Snapshot};
use registry_index::store::Store;
use registry_index::util::cidr::{Ipv4CidrWrapper, Ipv6CidrWrapper};

fn v4(text: &str) -> Ipv4CidrWrapper {
    Ipv4CidrWrapper::from_str(text).unwrap()
}

fn v6(text: &str) -> Ipv6CidrWrapper {
    Ipv6CidrWrapper::from_str(text).unwrap()
}

fn inetnum(text: &str, description: &str) -> Resource {
    Resource::Inetnum(Inetnum {
        cidr: v4(text),
        description: Some(description.to_string()),
        ns: None,
    })
}

fn route(text: &str, origin: &str) -> Resource {
    Resource::Route(Route {
        cidr: v4(text),
        description: None,
        origin: vec![origin.to_string()],
    })
}

fn inet6num(text: &str, description: &str) -> Resource {
    Resource::Inet6num(Inet6num {
        cidr: v6(text),
        description: Some(description.to_string()),
        ns: None,
    })
}

fn route6(text: &str, origin: &str) -> Resource {
    Resource::Route6(Route6 {
        cidr: v6(text),
        description: None,
        origin: vec![origin.to_string()],
    })
}

fn descriptions(list: &[Inetnum]) -> Vec<String> {
    list.iter()
        .map(|i| i.description.clone().unwrap())
        .collect()
}

#[test]
fn test_mem_store() {
    let mut store = MemoryStore::new();
    store.set(&Vec::from([
        Resource::Inetnum(Inetnum {
            cidr: Ipv4CidrWrapper::from_str("10.1.0.0/16").unwrap(),
            description: None,
            ns: Some(Vec::new()),
        }),
        Resource::Inetnum(Inetnum {
            cidr: Ipv4CidrWrapper::from_str("10.2.0.0/16").unwrap(),
            description: None,
            ns: Some(Vec::new()),
        }),
    ]));
    let x = store.get_inetnum_prefixes(Ipv4CidrWrapper::from_str("10.1.2.3/32").unwrap());
    assert_eq!(x.0.len(), 1);
    assert_eq!(x.1.len(), 0);
    assert_eq!(
        x.0.get(0).unwrap().cidr,
        Ipv4CidrWrapper::from_str("10.1.0.0/16").unwrap()
    )
}

#[test]
fn bits_are_counted_from_the_most_significant() {
    let address = [0b1000_0000u8, 0b0000_0001, 0xff, 0x00];
    assert!(bit_of(&address, 0));
    assert!(!bit_of(&address, 1));
    assert!(!bit_of(&address, 7));
    assert!(!bit_of(&address, 8));
    assert!(bit_of(&address, 15));
    assert!(bit_of(&address, 16));
    assert!(bit_of(&address, 23));
    assert!(!bit_of(&address, 24));
    assert!(!bit_of(&address, 31));
}

#[test]
fn empty_trie_visits_its_root_only() {
    let trie = IPTrie::new();
    let nodes = trie.traverse(&[10u8, 1, 2, 3], 0, 32);
    assert_eq!(nodes.len(), 1);
    assert!(nodes[0].inetnum.is_none());
    assert!(nodes[0].route.is_none());
    assert!(trie.child_ref(false).is_none());
    assert!(trie.child_ref(true).is_none());
    assert!(trie
        .payloads_on_path(&[10u8, 1, 2, 3], 32, Slot::Inetnum)
        .is_empty());
}

#[test]
fn traverse_visits_every_node_down_to_the_target() {
    let mut trie = IPTrie::new();
    trie.add(&inetnum("10.1.0.0/16", "sixteen"));
    let nodes = trie.traverse(&[10u8, 1, 2, 3], 0, 32);
    assert_eq!(nodes.len(), 17);
    for (depth, node) in nodes.iter().enumerate() {
        assert_eq!(node.inetnum.is_some(), depth == 16);
        assert!(node.route.is_none());
    }
    let short = trie.traverse(&[10u8, 1, 2, 3], 0, 8);
    assert_eq!(short.len(), 9);
    let other = trie.traverse(&[10u8, 2, 0, 0], 0, 32);
    assert_eq!(other.len(), 15);
    let root_only = trie.traverse(&[10u8, 1, 2, 3], 0, 0);
    assert_eq!(root_only.len(), 1);
}

#[test]
fn traverse_from_a_node_below_the_root() {
    let mut trie = IPTrie::new();
    trie.add(&inetnum("128.0.0.0/2", "two"));
    let below = trie.child_ref(true).unwrap();
    let nodes = below.traverse(&[128u8, 0, 0, 0], 1, 32);
    assert_eq!(nodes.len(), 2);
    assert!(nodes[0].inetnum.is_none());
    assert!(nodes[1].inetnum.is_some());
}

#[test]
fn traverse_mut_stores_at_the_target() {
    let mut trie = IPTrie::new();
    trie.traverse_mut(&[10u8, 0, 0, 0], 0, 8, Slot::Route, route("10.0.0.0/8", "AS1"));
    let nodes = trie.traverse(&[10u8, 0, 0, 0], 0, 32);
    assert_eq!(nodes.len(), 9);
    assert!(nodes[8].route.is_some());
    assert!(nodes[8].inetnum.is_none());
    assert!(nodes[8].payload_ref(Slot::Route).is_some());
    assert!(nodes[8].payload_ref(Slot::Inetnum).is_none());
}

#[test]
fn enumeration_gives_the_covering_prefixes_shortest_first() {
    let mut trie = IPTrie::new();
    trie.add(&inetnum("10.1.2.0/24", "twentyfour"));
    trie.add(&inetnum("10.0.0.0/8", "eight"));
    trie.add(&inetnum("10.1.0.0/16", "sixteen"));
    trie.add(&inetnum("10.2.0.0/16", "other sixteen"));
    trie.add(&inetnum("11.0.0.0/8", "other eight"));
    trie.add(&inetnum("10.1.2.3/32", "host"));
    trie.add(&inetnum("10.1.2.4/32", "other host"));
    trie.add(&route("10.1.0.0/16", "AS64601"));
    let found = trie.payloads_on_path(&[10u8, 1, 2, 3], 32, Slot::Inetnum);
    let names: Vec<String> = found
        .iter()
        .map(|r| match r {
            Resource::Inetnum(i) => i.description.clone().unwrap(),
            _ => panic!("a delegation was expected"),
        })
        .collect();
    assert_eq!(names, vec!["eight", "sixteen", "twentyfour", "host"]);
    let shorter = trie.payloads_on_path(&[10u8, 1, 2, 3], 24, Slot::Inetnum);
    assert_eq!(shorter.len(), 3);
    let routes = trie.payloads_on_path(&[10u8, 1, 2, 3], 32, Slot::Route);
    assert_eq!(routes.len(), 1);
    assert!(trie
        .payloads_on_path(&[12u8, 1, 2, 3], 32, Slot::Inetnum)
        .is_empty());
}

#[test]
fn the_first_octet_tells_prefixes_apart() {
    let mut store = MemoryStore::new();
    store.set(&vec![
        inetnum("10.1.0.0/16", "ten"),
        inetnum("11.1.0.0/16", "eleven"),
    ]);
    let (inetnums, _) = store.get_inetnum_prefixes(v4("11.1.2.3/32"));
    assert_eq!(descriptions(&inetnums), vec!["eleven"]);
    let (inetnums, _) = store.get_inetnum_prefixes(v4("10.1.2.3/32"));
    assert_eq!(descriptions(&inetnums), vec!["ten"]);
}

#[test]
fn the_default_prefix_covers_everything() {
    let mut store = MemoryStore::new();
    store.set(&vec![
        inetnum("0.0.0.0/0", "all"),
        inetnum("10.0.0.0/7", "seven"),
    ]);
    let (inetnums, _) = store.get_inetnum_prefixes(v4("10.1.2.3/32"));
    assert_eq!(descriptions(&inetnums), vec!["all", "seven"]);
    let (inetnums, _) = store.get_inetnum_prefixes(v4("200.0.0.0/8"));
    assert_eq!(descriptions(&inetnums), vec!["all"]);
    let (inetnums, _) = store.get_inetnum_prefixes(v4("0.0.0.0/0"));
    assert_eq!(descriptions(&inetnums), vec!["all"]);
}

#[test]
fn the_last_object_at_a_prefix_wins() {
    let mut store = MemoryStore::new();
    store.set(&vec![
        inetnum("10.1.0.0/16", "first"),
        route("10.1.0.0/16", "AS1"),
        inetnum("10.1.0.0/16", "second"),
        route("10.1.0.0/16", "AS2"),
    ]);
    let (inetnums, routes) = store.get_inetnum_prefixes(v4("10.1.0.0/16"));
    assert_eq!(descriptions(&inetnums), vec!["second"]);
    assert_eq!(routes.len(), 1);
    assert_eq!(routes[0].origin, vec!["AS2".to_string()]);
}

#[test]
fn a_query_sees_no_prefix_longer_than_its_own() {
    let mut store = MemoryStore::new();
    store.set(&vec![
        inetnum("10.1.0.0/16", "sixteen"),
        inetnum("10.1.2.0/24", "twentyfour"),
    ]);
    let (inetnums, _) = store.get_inetnum_prefixes(v4("10.1.0.0/16"));
    assert_eq!(descriptions(&inetnums), vec!["sixteen"]);
    let (inetnums, _) = store.get_inetnum_prefixes(v4("10.0.0.0/8"));
    assert!(inetnums.is_empty());
}

#[test]
fn ipv6_prefixes() {
    let mut store = MemoryStore::new();
    store.set(&vec![
        inet6num("fd00::/8", "eight"),
        inet6num("fd00:1::/32", "thirtytwo"),
        inet6num("fd00:2::/32", "other"),
        route6("fd00:1::/32", "AS64601"),
        inetnum("10.0.0.0/8", "v4"),
    ]);
    let (inet6nums, route6s) = store.get_inet6num_prefixes(v6("fd00:1::1/128"));
    let names: Vec<String> = inet6nums
        .iter()
        .map(|i| i.description.clone().unwrap())
        .collect();
    assert_eq!(names, vec!["eight", "thirtytwo"]);
    assert_eq!(inet6nums[1].cidr, v6("fd00:1::/32"));
    assert_eq!(route6s.len(), 1);
    assert_eq!(route6s[0].origin, vec!["AS64601".to_string()]);
    let (inetnums, _) = store.get_inetnum_prefixes(v4("10.1.2.3/32"));
    assert_eq!(descriptions(&inetnums), vec!["v4"]);
}

#[test]
fn autnums_and_domains_by_key() {
    let mut store = MemoryStore::new();
    store.set(&vec![
        Resource::Autnum(Autnum {
            autnum: "AS64601".to_string(),
            name: "Example".to_string(),
            description: None,
        }),
        Resource::Autnum(Autnum {
            autnum: "AS64602".to_string(),
            name: "First".to_string(),
            description: None,
        }),
        Resource::Autnum(Autnum {
            autnum: "AS64602".to_string(),
            name: "Second".to_string(),
            description: Some("later".to_string()),
        }),
        Resource::Domain(Domain {
            domain: "meow.catmunch".to_string(),
            description: None,
            ns: vec![NS {
                server: "ns1.meow.catmunch".to_string(),
                a: Some(0x0a00_0001),
                aaaa: None,
            }],
        }),
    ]);
    let a = store.get_autnum("AS64601".to_string()).unwrap();
    assert_eq!(a.name, "Example");
    let b = store.get_autnum("AS64602".to_string()).unwrap();
    assert_eq!(b.name, "Second");
    assert_eq!(b.description, Some("later".to_string()));
    assert!(store.get_autnum("as64601".to_string()).is_none());
    assert!(store.get_autnum("AS1".to_string()).is_none());
    let d = store.get_domain("meow.catmunch".to_string()).unwrap();
    assert_eq!(d.ns.len(), 1);
    assert_eq!(d.ns[0].server, "ns1.meow.catmunch");
    assert_eq!(d.ns[0].a, Some(0x0a00_0001));
    assert!(store.get_domain("MEOW.catmunch".to_string()).is_none());
    assert!(store.get_domain("AS64601".to_string()).is_none());
}

#[test]
fn a_store_is_ready_once_a_snapshot_was_published() {
    let mut store = MemoryStore::new();
    assert!(!store.is_ready());
    assert!(!store.current().is_ready());
    assert!(store.get_autnum("AS64601".to_string()).is_none());
    store.set(&Vec::new());
    assert!(store.is_ready());
    store.set(&vec![inetnum("10.0.0.0/8", "eight")]);
    assert!(store.is_ready());
}

#[test]
fn replace_publishes_all_indexes_at_once() {
    let mut store = MemoryStore::new();
    store.set(&vec![
        inetnum("10.0.0.0/8", "old"),
        Resource::Autnum(Autnum {
            autnum: "AS1".to_string(),
            name: "Old".to_string(),
            description: None,
        }),
    ]);
    let next = Snapshot::build(&vec![inet6num("fd00::/8", "new")]);
    assert!(!next.is_ready());
    store.replace(next);
    assert!(store.is_ready());
    assert!(store.get_autnum("AS1".to_string()).is_none());
    assert!(store.get_inetnum_prefixes(v4("10.0.0.0/8")).0.is_empty());
    assert_eq!(store.get_inet6num_prefixes(v6("fd00::/8")).0.len(), 1);
    assert!(store.current().get_autnum("AS1").is_none());
}

#[test]
fn a_snapshot_is_built_from_a_list_of_objects() {
    let empty = Snapshot::new();
    assert!(empty.get_domain("meow.catmunch").is_none());
    assert!(!empty.is_ready());
    let snapshot = Snapshot::build(&vec![
        Resource::Domain(Domain {
            domain: "meow.catmunch".to_string(),
            description: Some("cats".to_string()),
            ns: Vec::new(),
        }),
        route("10.1.0.0/16", "AS64601"),
    ]);
    assert_eq!(
        snapshot.get_domain("meow.catmunch").unwrap().description,
        Some("cats".to_string())
    );
    let (inetnums, routes) = snapshot.get_inetnum_prefixes(v4("10.1.2.0/24"));
    assert!(inetnums.is_empty());
    assert_eq!(routes.len(), 1);
    assert_eq!(routes[0].cidr, v4("10.1.0.0/16"));
}

#[test]
fn a_copy_holds_what_was_copied() {
    let object = Resource::Inetnum(Inetnum {
        cidr: v4("10.1.0.0/16"),
        description: Some("text".to_string()),
        ns: Some(vec![NS {
            server: "ns.meow.catmunch".to_string(),
            a: Some(1),
            aaaa: Some(2),
        }]),
    });
    match object.clone() {
        Resource::Inetnum(copy) => {
            assert_eq!(copy.cidr, v4("10.1.0.0/16"));
            assert_eq!(copy.description, Some("text".to_string()));
            let ns = copy.ns.unwrap();
            assert_eq!(ns.len(), 1);
            assert_eq!(ns[0].server, "ns.meow.catmunch");
            assert_eq!(ns[0].a, Some(1));
            assert_eq!(ns[0].aaaa, Some(2));
        }
        _ => panic!("a delegation was expected"),
    }
}
