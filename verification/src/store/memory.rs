use crate::resource::autnum::{Autnum, AutnumView};
use crate::resource::domain::{Domain, DomainView};
use crate::resource::inet6num::{Inet6num, Inet6numView};
use crate::resource::inetnum::{Inetnum, InetnumView};
use crate::resource::route::{Route, RouteView};
use crate::resource::route6::{Route6, Route6View};
use crate::resource::{Resource, ResourceView};
use crate::store::memory::iptrie::{payload_views, IPTrie, Slot};
use crate::store::{
    inet6num_views, inet6nums_in, inetnum_views, inetnums_in, resource_views, route6_views,
    route6s_in, route_views, routes_in, snapshot_of, SnapshotView, Store,
};
use crate::util::cidr::{Ipv4CidrWrapper, Ipv6CidrWrapper};
use vstd::hash_map::StringHashMap;
use vstd::prelude::*;

pub mod covering;
pub mod iptrie;

verus! {

/// Copies of the IPv4 delegations among the payloads of a list, in the list's
/// order.
pub fn select_inetnums(found: &Vec<&Resource>) -> (r: Vec<Inetnum>)
    ensures
        inetnum_views(r@) == inetnums_in(payload_views(found@)),
{
    let mut out: Vec<Inetnum> = Vec::new();
    let mut i: usize = 0;
    proof {
        assert(payload_views(found@).take(0) =~= Seq::<ResourceView>::empty());
        assert(inetnum_views(out@) =~= Seq::<InetnumView>::empty());
    }
    while i < found.len()
        invariant
            i <= found.len(),
            inetnum_views(out@) == inetnums_in(payload_views(found@).take(i as int)),
        decreases found.len() - i,
    {
        let ghost before = out@;
        proof {
            let now = payload_views(found@).take(i + 1);
            assert(now.drop_last() =~= payload_views(found@).take(i as int));
            assert(now.last() == found@[i as int]@);
        }
        match found[i] {
            Resource::Inetnum(x) => {
                out.push(x.clone());
                proof {
                    assert(inetnum_views(out@) =~= inetnum_views(before).push(x@));
                }
            },
            _ => {},
        }
        i += 1;
    }
    proof {
        assert(payload_views(found@).take(found@.len() as int) =~= payload_views(found@));
    }
    out
}

/// Copies of the IPv4 announcements among the payloads of a list, in the list's
/// order.
pub fn select_routes(found: &Vec<&Resource>) -> (r: Vec<Route>)
    ensures
        route_views(r@) == routes_in(payload_views(found@)),
{
    let mut out: Vec<Route> = Vec::new();
    let mut i: usize = 0;
    proof {
        assert(payload_views(found@).take(0) =~= Seq::<ResourceView>::empty());
        assert(route_views(out@) =~= Seq::<RouteView>::empty());
    }
    while i < found.len()
        invariant
            i <= found.len(),
            route_views(out@) == routes_in(payload_views(found@).take(i as int)),
        decreases found.len() - i,
    {
        let ghost before = out@;
        proof {
            let now = payload_views(found@).take(i + 1);
            assert(now.drop_last() =~= payload_views(found@).take(i as int));
            assert(now.last() == found@[i as int]@);
        }
        match found[i] {
            Resource::Route(x) => {
                out.push(x.clone());
                proof {
                    assert(route_views(out@) =~= route_views(before).push(x@));
                }
            },
            _ => {},
        }
        i += 1;
    }
    proof {
        assert(payload_views(found@).take(found@.len() as int) =~= payload_views(found@));
    }
    out
}

/// Copies of the IPv6 delegations among the payloads of a list, in the list's
/// order.
pub fn select_inet6nums(found: &Vec<&Resource>) -> (r: Vec<Inet6num>)
    ensures
        inet6num_views(r@) == inet6nums_in(payload_views(found@)),
{
    let mut out: Vec<Inet6num> = Vec::new();
    let mut i: usize = 0;
    proof {
        assert(payload_views(found@).take(0) =~= Seq::<ResourceView>::empty());
        assert(inet6num_views(out@) =~= Seq::<Inet6numView>::empty());
    }
    while i < found.len()
        invariant
            i <= found.len(),
            inet6num_views(out@) == inet6nums_in(payload_views(found@).take(i as int)),
        decreases found.len() - i,
    {
        let ghost before = out@;
        proof {
            let now = payload_views(found@).take(i + 1);
            assert(now.drop_last() =~= payload_views(found@).take(i as int));
            assert(now.last() == found@[i as int]@);
        }
        match found[i] {
            Resource::Inet6num(x) => {
                out.push(x.clone());
                proof {
                    assert(inet6num_views(out@) =~= inet6num_views(before).push(x@));
                }
            },
            _ => {},
        }
        i += 1;
    }
    proof {
        assert(payload_views(found@).take(found@.len() as int) =~= payload_views(found@));
    }
    out
}

/// Copies of the IPv6 announcements among the payloads of a list, in the list's
/// order.
pub fn select_route6s(found: &Vec<&Resource>) -> (r: Vec<Route6>)
    ensures
        route6_views(r@) == route6s_in(payload_views(found@)),
{
    let mut out: Vec<Route6> = Vec::new();
    let mut i: usize = 0;
    proof {
        assert(payload_views(found@).take(0) =~= Seq::<ResourceView>::empty());
        assert(route6_views(out@) =~= Seq::<Route6View>::empty());
    }
    while i < found.len()
        invariant
            i <= found.len(),
            route6_views(out@) == route6s_in(payload_views(found@).take(i as int)),
        decreases found.len() - i,
    {
        let ghost before = out@;
        proof {
            let now = payload_views(found@).take(i + 1);
            assert(now.drop_last() =~= payload_views(found@).take(i as int));
            assert(now.last() == found@[i as int]@);
        }
        match found[i] {
            Resource::Route6(x) => {
                out.push(x.clone());
                proof {
                    assert(route6_views(out@) =~= route6_views(before).push(x@));
                }
            },
            _ => {},
        }
        i += 1;
    }
    proof {
        assert(payload_views(found@).take(found@.len() as int) =~= payload_views(found@));
    }
    out
}

/// The indexes of the registry at one point in time: the autnums and the
/// domains by their keys, and a trie of prefixes for each address family.
pub struct Snapshot {
    autnums: StringHashMap<Autnum>,
    domains: StringHashMap<Domain>,
    trie4: IPTrie,
    trie6: IPTrie,
    ready: bool,
}

impl View for Snapshot {
    type V = SnapshotView;

    closed spec fn view(&self) -> SnapshotView {
        SnapshotView {
            autnums: self.autnums@.map_values(|a: Autnum| a@),
            domains: self.domains@.map_values(|d: Domain| d@),
            trie4: self.trie4@,
            trie6: self.trie6@,
            ready: self.ready,
        }
    }
}

impl Snapshot {
    /// A snapshot that holds nothing and is not published.
    pub fn new() -> (r: Self)
        ensures
            r@ == SnapshotView::empty(),
    {
        let r = Snapshot {
            autnums: StringHashMap::new(),
            domains: StringHashMap::new(),
            trie4: IPTrie::new(),
            trie6: IPTrie::new(),
            ready: false,
        };
        proof {
            assert(r.autnums@.map_values(|a: Autnum| a@) =~= Map::<Seq<char>, AutnumView>::empty());
            assert(r.domains@.map_values(|d: Domain| d@) =~= Map::<Seq<char>, DomainView>::empty());
        }
        r
    }

    /// Adds a copy of one object: an autnum or a domain under its key, a
    /// delegation or an announcement at its prefix. An object of the same
    /// kind that stood there is replaced. Only `build` calls this: a
    /// snapshot that was handed out does not change.
    fn insert(&mut self, resource: &Resource)
        ensures
            final(self)@ == old(self)@.with(resource@),
    {
        match resource {
            Resource::Autnum(autnum) => {
                let copy = autnum.clone();
                self.autnums.insert(autnum.autnum.clone(), copy);
                proof {
                    assert(self.autnums@.map_values(|a: Autnum| a@) =~= old(self).autnums@.map_values(
                        |a: Autnum| a@,
                    ).insert(autnum@.autnum, autnum@));
                }
            },
            Resource::Domain(domain) => {
                let copy = domain.clone();
                self.domains.insert(domain.domain.clone(), copy);
                proof {
                    assert(self.domains@.map_values(|d: Domain| d@) =~= old(self).domains@.map_values(
                        |d: Domain| d@,
                    ).insert(domain@.domain, domain@));
                }
            },
            Resource::Inetnum(_) | Resource::Route(_) => {
                self.trie4.add(resource);
            },
            Resource::Inet6num(_) | Resource::Route6(_) => {
                self.trie6.add(resource);
            },
        }
    }

    /// The snapshot of a list of objects, taken in the list's order; not yet
    /// published.
    pub fn build(resources: &Vec<Resource>) -> (r: Self)
        ensures
            r@ == snapshot_of(resource_views(resources@)),
    {
        let mut snapshot = Snapshot::new();
        let mut i: usize = 0;
        proof {
            assert(resource_views(resources@).take(0) =~= Seq::<ResourceView>::empty());
        }
        while i < resources.len()
            invariant
                i <= resources.len(),
                snapshot@ == snapshot_of(resource_views(resources@).take(i as int)),
            decreases resources.len() - i,
        {
            proof {
                let now = resource_views(resources@).take(i + 1);
                assert(now.drop_last() =~= resource_views(resources@).take(i as int));
                assert(now.last() == resources@[i as int]@);
            }
            snapshot.insert(&resources[i]);
            i += 1;
        }
        proof {
            assert(resource_views(resources@).take(resources@.len() as int) =~= resource_views(
                resources@,
            ));
        }
        snapshot
    }

    /// The autnum under the key `autnum`, if the snapshot holds one.
    pub fn get_autnum(&self, autnum: &str) -> (r: Option<Autnum>)
        ensures
            r.is_some() == self@.autnums.contains_key(autnum@),
            r matches Some(a) ==> a@ == self@.autnums[autnum@],
    {
        match self.autnums.get(autnum) {
            Some(found) => Some(found.clone()),
            None => None,
        }
    }

    /// The domain under the key `domain`, if the snapshot holds one.
    pub fn get_domain(&self, domain: &str) -> (r: Option<Domain>)
        ensures
            r.is_some() == self@.domains.contains_key(domain@),
            r matches Some(d) ==> d@ == self@.domains[domain@],
    {
        match self.domains.get(domain) {
            Some(found) => Some(found.clone()),
            None => None,
        }
    }

    /// The delegations and the announcements at the IPv4 prefixes that cover
    /// `inetnum`, the shortest prefix first.
    pub fn get_inetnum_prefixes(&self, inetnum: Ipv4CidrWrapper) -> (r: (Vec<Inetnum>, Vec<Route>))
        ensures
            inetnum_views(r.0@) == self@.inetnums_covering(inetnum.parts()),
            route_views(r.1@) == self@.routes_covering(inetnum.parts()),
    {
        let address: [u8; 4] = inetnum.octets();
        let target_bit: usize = inetnum.network_length() as usize;
        let inetnums = select_inetnums(
            &self.trie4.payloads_on_path(&address, target_bit, Slot::Inetnum),
        );
        let routes = select_routes(&self.trie4.payloads_on_path(&address, target_bit, Slot::Route));
        (inetnums, routes)
    }

    /// The delegations and the announcements at the IPv6 prefixes that cover
    /// `inet6num`, the shortest prefix first.
    pub fn get_inet6num_prefixes(&self, inet6num: Ipv6CidrWrapper) -> (r: (
        Vec<Inet6num>,
        Vec<Route6>,
    ))
        ensures
            inet6num_views(r.0@) == self@.inet6nums_covering(inet6num.parts()),
            route6_views(r.1@) == self@.route6s_covering(inet6num.parts()),
    {
        let address: [u8; 16] = inet6num.octets();
        let target_bit: usize = inet6num.network_length() as usize;
        let inet6nums = select_inet6nums(
            &self.trie6.payloads_on_path(&address, target_bit, Slot::Inetnum),
        );
        let route6s = select_route6s(
            &self.trie6.payloads_on_path(&address, target_bit, Slot::Route),
        );
        (inet6nums, route6s)
    }

    /// Whether the snapshot was published.
    pub fn is_ready(&self) -> (r: bool)
        ensures
            r == self@.ready,
    {
        self.ready
    }
}

/// A store that holds its snapshot in memory.
pub struct MemoryStore {
    current: Snapshot,
}

impl MemoryStore {
    /// A store without a published snapshot: it holds nothing and is not
    /// ready.
    pub fn new() -> (r: Self)
        ensures
            r.snapshot() == SnapshotView::empty(),
    {
        MemoryStore { current: Snapshot::new() }
    }

    /// Publishes `snapshot` in place of the current one, all its indexes at
    /// once.
    pub fn replace(&mut self, snapshot: Snapshot)
        ensures
            final(self).snapshot() == snapshot@.published(),
    {
        let mut next = snapshot;
        next.ready = true;
        self.current = next;
    }

    /// The current snapshot. A reader that holds it sees the four indexes of
    /// one publication.
    pub fn current(&self) -> (r: &Snapshot)
        ensures
            r@ == self.snapshot(),
    {
        &self.current
    }
}

impl Store for MemoryStore {
    closed spec fn snapshot(&self) -> SnapshotView {
        self.current@
    }

    fn set(&mut self, resources: &Vec<Resource>) {
        self.replace(Snapshot::build(resources));
    }

    fn get_autnum(&self, autnum: String) -> (r: Option<Autnum>) {
        self.current.get_autnum(autnum.as_str())
    }

    fn get_domain(&self, domain: String) -> (r: Option<Domain>) {
        self.current.get_domain(domain.as_str())
    }

    fn get_inetnum_prefixes(&self, inetnum: Ipv4CidrWrapper) -> (r: (Vec<Inetnum>, Vec<Route>)) {
        self.current.get_inetnum_prefixes(inetnum)
    }

    fn get_inet6num_prefixes(&self, inet6num: Ipv6CidrWrapper) -> (r: (
        Vec<Inet6num>,
        Vec<Route6>,
    )) {
        self.current.get_inet6num_prefixes(inet6num)
    }

    fn is_ready(&self) -> (r: bool) {
        self.current.is_ready()
    }
}

} // verus!
