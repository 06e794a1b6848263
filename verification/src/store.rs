use crate::resource::autnum::{Autnum, AutnumView};
use crate::resource::domain::{Domain, DomainView};
use crate::resource::inet6num::{Inet6num, Inet6numView};
use crate::resource::inetnum::{Inetnum, InetnumView};
use crate::resource::route::{Route, RouteView};
use crate::resource::route6::{Route6, Route6View};
use crate::resource::{Resource, ResourceView};
use crate::store::memory::iptrie::{
    after_insertions, covering, empty_view, prefix_of, prefix_v4, prefix_v6, slot_of, Insertion,
    TrieView,
};
use crate::util::cidr::{Ipv4CidrWrapper, Ipv6CidrWrapper};
use vstd::prelude::*;

pub mod memory;

verus! {

/// What a snapshot holds: the two tables, the two tries, and whether it was
/// published.
pub struct SnapshotView {
    pub autnums: Map<Seq<char>, AutnumView>,
    pub domains: Map<Seq<char>, DomainView>,
    pub trie4: TrieView,
    pub trie6: TrieView,
    pub ready: bool,
}

impl SnapshotView {
    /// A snapshot that holds nothing and was not published.
    pub open spec fn empty() -> SnapshotView {
        SnapshotView {
            autnums: Map::empty(),
            domains: Map::empty(),
            trie4: empty_view(),
            trie6: empty_view(),
            ready: false,
        }
    }

    /// The snapshot with one more object: an autnum or a domain under its key,
    /// a delegation or an announcement at its prefix in the trie of its
    /// family. An object of the same kind that stood there is replaced.
    pub open spec fn with(self, resource: ResourceView) -> SnapshotView {
        match resource {
            ResourceView::Autnum(a) => SnapshotView {
                autnums: self.autnums.insert(a.autnum, a),
                ..self
            },
            ResourceView::Domain(d) => SnapshotView {
                domains: self.domains.insert(d.domain, d),
                ..self
            },
            ResourceView::Inetnum(_) | ResourceView::Route(_) => SnapshotView {
                trie4: self.trie4.store(slot_of(resource), prefix_of(resource), resource),
                ..self
            },
            ResourceView::Inet6num(_) | ResourceView::Route6(_) => SnapshotView {
                trie6: self.trie6.store(slot_of(resource), prefix_of(resource), resource),
                ..self
            },
        }
    }

    /// The snapshot, published.
    pub open spec fn published(self) -> SnapshotView {
        SnapshotView { ready: true, ..self }
    }

    /// The IPv4 delegations at the prefixes that cover `cidr`, an address and
    /// a length, `cidr` itself among them, the shortest prefix first.
    pub open spec fn inetnums_covering(self, cidr: (u32, u8)) -> Seq<InetnumView> {
        inetnums_in(covering(self.trie4.inetnums, prefix_v4(cidr)))
    }

    /// The IPv4 announcements at the prefixes that cover `cidr`, the shortest
    /// prefix first.
    pub open spec fn routes_covering(self, cidr: (u32, u8)) -> Seq<RouteView> {
        routes_in(covering(self.trie4.routes, prefix_v4(cidr)))
    }

    /// The IPv6 delegations at the prefixes that cover `cidr`, the shortest
    /// prefix first.
    pub open spec fn inet6nums_covering(self, cidr: (u128, u8)) -> Seq<Inet6numView> {
        inet6nums_in(covering(self.trie6.inetnums, prefix_v6(cidr)))
    }

    /// The IPv6 announcements at the prefixes that cover `cidr`, the shortest
    /// prefix first.
    pub open spec fn route6s_covering(self, cidr: (u128, u8)) -> Seq<Route6View> {
        route6s_in(covering(self.trie6.routes, prefix_v6(cidr)))
    }
}

/// What each object of a list holds.
pub open spec fn resource_views(list: Seq<Resource>) -> Seq<ResourceView> {
    list.map_values(|r: Resource| r@)
}

/// The snapshot built from a list of objects, taken in the list's order.
pub open spec fn snapshot_of(resources: Seq<ResourceView>) -> SnapshotView
    decreases resources.len(),
{
    if resources.len() == 0 {
        SnapshotView::empty()
    } else {
        snapshot_of(resources.drop_last()).with(resources.last())
    }
}

/// The IPv4 delegations among the payloads of a list, in the list's order.
pub open spec fn inetnums_in(payloads: Seq<ResourceView>) -> Seq<InetnumView>
    decreases payloads.len(),
{
    if payloads.len() == 0 {
        Seq::empty()
    } else {
        match payloads.last() {
            ResourceView::Inetnum(x) => inetnums_in(payloads.drop_last()).push(x),
            _ => inetnums_in(payloads.drop_last()),
        }
    }
}

/// The IPv6 delegations among the payloads of a list, in the list's order.
pub open spec fn inet6nums_in(payloads: Seq<ResourceView>) -> Seq<Inet6numView>
    decreases payloads.len(),
{
    if payloads.len() == 0 {
        Seq::empty()
    } else {
        match payloads.last() {
            ResourceView::Inet6num(x) => inet6nums_in(payloads.drop_last()).push(x),
            _ => inet6nums_in(payloads.drop_last()),
        }
    }
}

/// The IPv4 announcements among the payloads of a list, in the list's order.
pub open spec fn routes_in(payloads: Seq<ResourceView>) -> Seq<RouteView>
    decreases payloads.len(),
{
    if payloads.len() == 0 {
        Seq::empty()
    } else {
        match payloads.last() {
            ResourceView::Route(x) => routes_in(payloads.drop_last()).push(x),
            _ => routes_in(payloads.drop_last()),
        }
    }
}

/// The IPv6 announcements among the payloads of a list, in the list's order.
pub open spec fn route6s_in(payloads: Seq<ResourceView>) -> Seq<Route6View>
    decreases payloads.len(),
{
    if payloads.len() == 0 {
        Seq::empty()
    } else {
        match payloads.last() {
            ResourceView::Route6(x) => route6s_in(payloads.drop_last()).push(x),
            _ => route6s_in(payloads.drop_last()),
        }
    }
}

/// What each delegation of a list holds.
pub open spec fn inetnum_views(list: Seq<Inetnum>) -> Seq<InetnumView> {
    list.map_values(|x: Inetnum| x@)
}

/// What each delegation of a list holds.
pub open spec fn inet6num_views(list: Seq<Inet6num>) -> Seq<Inet6numView> {
    list.map_values(|x: Inet6num| x@)
}

/// What each announcement of a list holds.
pub open spec fn route_views(list: Seq<Route>) -> Seq<RouteView> {
    list.map_values(|x: Route| x@)
}

/// What each announcement of a list holds.
pub open spec fn route6_views(list: Seq<Route6>) -> Seq<Route6View> {
    list.map_values(|x: Route6| x@)
}

/// A holder of the current snapshot of the registry, which answers queries
/// from it.
pub trait Store {
    /// The snapshot that the store answers from.
    spec fn snapshot(&self) -> SnapshotView;

    /// Builds a snapshot from `resources` and publishes it in place of the
    /// current one.
    fn set(&mut self, resources: &Vec<Resource>)
        ensures
            final(self).snapshot() == snapshot_of(resource_views(resources@)).published(),
    ;

    /// The autnum under the key `autnum`, if the snapshot holds one.
    fn get_autnum(&self, autnum: String) -> (r: Option<Autnum>)
        ensures
            r.is_some() == self.snapshot().autnums.contains_key(autnum@),
            r matches Some(a) ==> a@ == self.snapshot().autnums[autnum@],
    ;

    /// The domain under the key `domain`, if the snapshot holds one.
    fn get_domain(&self, domain: String) -> (r: Option<Domain>)
        ensures
            r.is_some() == self.snapshot().domains.contains_key(domain@),
            r matches Some(d) ==> d@ == self.snapshot().domains[domain@],
    ;

    /// The delegations and the announcements at the IPv4 prefixes that cover
    /// `inetnum`, the shortest prefix first.
    fn get_inetnum_prefixes(&self, inetnum: Ipv4CidrWrapper) -> (r: (Vec<Inetnum>, Vec<Route>))
        ensures
            inetnum_views(r.0@) == self.snapshot().inetnums_covering(inetnum.parts()),
            route_views(r.1@) == self.snapshot().routes_covering(inetnum.parts()),
    ;

    /// The delegations and the announcements at the IPv6 prefixes that cover
    /// `inet6num`, the shortest prefix first.
    fn get_inet6num_prefixes(&self, inet6num: Ipv6CidrWrapper) -> (r: (
        Vec<Inet6num>,
        Vec<Route6>,
    ))
        ensures
            inet6num_views(r.0@) == self.snapshot().inet6nums_covering(inet6num.parts()),
            route6_views(r.1@) == self.snapshot().route6s_covering(inet6num.parts()),
    ;

    /// Whether a snapshot was published.
    fn is_ready(&self) -> (r: bool)
        ensures
            r == self.snapshot().ready,
    ;
}

/// The insertion that stores a delegation or an announcement in its trie.
pub open spec fn insertion_of(resource: ResourceView) -> Insertion {
    Insertion { slot: slot_of(resource), prefix: prefix_of(resource), payload: resource }
}

/// The insertions into the IPv4 trie that a list of objects makes, in the
/// list's order: one for each IPv4 delegation and announcement.
pub open spec fn insertions_v4(resources: Seq<ResourceView>) -> Seq<Insertion>
    decreases resources.len(),
{
    if resources.len() == 0 {
        Seq::empty()
    } else {
        let before = insertions_v4(resources.drop_last());
        if resources.last() is Inetnum || resources.last() is Route {
            before.push(insertion_of(resources.last()))
        } else {
            before
        }
    }
}

/// The insertions into the IPv6 trie that a list of objects makes, in the
/// list's order: one for each IPv6 delegation and announcement.
pub open spec fn insertions_v6(resources: Seq<ResourceView>) -> Seq<Insertion>
    decreases resources.len(),
{
    if resources.len() == 0 {
        Seq::empty()
    } else {
        let before = insertions_v6(resources.drop_last());
        if resources.last() is Inet6num || resources.last() is Route6 {
            before.push(insertion_of(resources.last()))
        } else {
            before
        }
    }
}

/// The tries of the snapshot of a list of objects hold what the insertions of
/// the list's delegations and announcements leave, each family in its own
/// trie.
pub proof fn lemma_snapshot_tries(resources: Seq<ResourceView>)
    ensures
        snapshot_of(resources).trie4 == after_insertions(insertions_v4(resources)),
        snapshot_of(resources).trie6 == after_insertions(insertions_v6(resources)),
    decreases resources.len(),
{
    if resources.len() > 0 {
        lemma_snapshot_tries(resources.drop_last());
        let last = resources.last();
        if last is Inetnum || last is Route {
            let now = insertions_v4(resources);
            assert(now.drop_last() =~= insertions_v4(resources.drop_last()));
        }
        if last is Inet6num || last is Route6 {
            let now = insertions_v6(resources);
            assert(now.drop_last() =~= insertions_v6(resources.drop_last()));
        }
    }
}

/// The autnum that the snapshot of a list of objects holds under a key is the
/// last of the list with that key, and it holds none where the list has none.
pub proof fn lemma_snapshot_autnums(resources: Seq<ResourceView>, key: Seq<char>)
    ensures
        snapshot_of(resources).autnums.contains_key(key) <==> exists|i: int|
            0 <= i < resources.len() && #[trigger] resources[i] is Autnum
                && resources[i]->Autnum_0.autnum == key,
        forall|i: int|
            0 <= i < resources.len() && #[trigger] resources[i] is Autnum
                && resources[i]->Autnum_0.autnum == key && (forall|j: int|
                i < j < resources.len() ==> !(#[trigger] resources[j] is Autnum
                    && resources[j]->Autnum_0.autnum == key)) ==> snapshot_of(
                resources,
            ).autnums[key] == resources[i]->Autnum_0,
    decreases resources.len(),
{
    if resources.len() > 0 {
        let head = resources.drop_last();
        let last = resources.last();
        lemma_snapshot_autnums(head, key);
        let n = resources.len() - 1;
        assert forall|i: int| 0 <= i < n implies head[i] == resources[i] by {}
        if last is Autnum && last->Autnum_0.autnum == key {
            assert(resources[n] is Autnum);
        } else {
            assert(snapshot_of(resources).autnums.contains_key(key) == snapshot_of(
                head,
            ).autnums.contains_key(key));
            if snapshot_of(head).autnums.contains_key(key) {
                let i = choose|i: int|
                    0 <= i < head.len() && #[trigger] head[i] is Autnum
                        && head[i]->Autnum_0.autnum == key;
                assert(resources[i] is Autnum);
            }
            assert forall|i: int|
                0 <= i < resources.len() && #[trigger] resources[i] is Autnum
                    && resources[i]->Autnum_0.autnum == key && (forall|j: int|
                    i < j < resources.len() ==> !(#[trigger] resources[j] is Autnum
                        && resources[j]->Autnum_0.autnum == key)) implies snapshot_of(
                resources,
            ).autnums[key] == resources[i]->Autnum_0 by {
                assert(i < n);
                assert(head[i] is Autnum);
                assert forall|j: int| i < j < head.len() implies !(#[trigger] head[j] is Autnum
                    && head[j]->Autnum_0.autnum == key) by {
                    assert(head[j] == resources[j]);
                }
            }
        }
    }
}

/// The domain that the snapshot of a list of objects holds under a key is the
/// last of the list with that key, and it holds none where the list has none.
pub proof fn lemma_snapshot_domains(resources: Seq<ResourceView>, key: Seq<char>)
    ensures
        snapshot_of(resources).domains.contains_key(key) <==> exists|i: int|
            0 <= i < resources.len() && #[trigger] resources[i] is Domain
                && resources[i]->Domain_0.domain == key,
        forall|i: int|
            0 <= i < resources.len() && #[trigger] resources[i] is Domain
                && resources[i]->Domain_0.domain == key && (forall|j: int|
                i < j < resources.len() ==> !(#[trigger] resources[j] is Domain
                    && resources[j]->Domain_0.domain == key)) ==> snapshot_of(
                resources,
            ).domains[key] == resources[i]->Domain_0,
    decreases resources.len(),
{
    if resources.len() > 0 {
        let head = resources.drop_last();
        let last = resources.last();
        lemma_snapshot_domains(head, key);
        let n = resources.len() - 1;
        assert forall|i: int| 0 <= i < n implies head[i] == resources[i] by {}
        if last is Domain && last->Domain_0.domain == key {
            assert(resources[n] is Domain);
        } else {
            assert(snapshot_of(resources).domains.contains_key(key) == snapshot_of(
                head,
            ).domains.contains_key(key));
            if snapshot_of(head).domains.contains_key(key) {
                let i = choose|i: int|
                    0 <= i < head.len() && #[trigger] head[i] is Domain
                        && head[i]->Domain_0.domain == key;
                assert(resources[i] is Domain);
            }
            assert forall|i: int|
                0 <= i < resources.len() && #[trigger] resources[i] is Domain
                    && resources[i]->Domain_0.domain == key && (forall|j: int|
                    i < j < resources.len() ==> !(#[trigger] resources[j] is Domain
                        && resources[j]->Domain_0.domain == key)) implies snapshot_of(
                resources,
            ).domains[key] == resources[i]->Domain_0 by {
                assert(i < n);
                assert(head[i] is Domain);
                assert forall|j: int| i < j < head.len() implies !(#[trigger] head[j] is Domain
                    && head[j]->Domain_0.domain == key) by {
                    assert(head[j] == resources[j]);
                }
            }
        }
    }
}

} // verus!
