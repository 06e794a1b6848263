use crate::resource::{Resource, ResourceView};
use crate::util::cidr::{octets_v4, octets_v6};
use vstd::prelude::*;

verus! {

/// Bit `i` of an address given by its octets, counted from the most
/// significant bit of the first octet.
pub open spec fn bit_at(address: Seq<u8>, i: int) -> bool {
    (address[i / 8] >> ((7 - i % 8) as u8)) & 1 == 1
}

/// The bits of an address from bit `from` up to, not including, bit `to`.
pub open spec fn path_bits(address: Seq<u8>, from: int, to: int) -> Seq<bool> {
    Seq::new((to - from) as nat, |k: int| bit_at(address, from + k))
}

/// The payload of a node, if it has one.
pub open spec fn payload_view(payload: Option<Resource>) -> Option<ResourceView> {
    match payload {
        Some(r) => Some(r@),
        None => None,
    }
}

/// The two kinds of payload that a node can hold.
#[derive(Clone, Copy, Debug, PartialEq, Eq, Structural)]
pub enum Slot {
    Inetnum,
    Route,
}

/// What a trie holds: for each kind, the payloads by the bits of their prefix.
pub struct TrieView {
    pub inetnums: Map<Seq<bool>, ResourceView>,
    pub routes: Map<Seq<bool>, ResourceView>,
}

impl TrieView {
    /// The payloads of one kind.
    pub open spec fn slot(self, slot: Slot) -> Map<Seq<bool>, ResourceView> {
        match slot {
            Slot::Inetnum => self.inetnums,
            Slot::Route => self.routes,
        }
    }

    /// The trie after `payload` is stored at `prefix` in `slot`: an earlier
    /// payload of that kind at that prefix is replaced.
    pub open spec fn store(self, slot: Slot, prefix: Seq<bool>, payload: ResourceView) -> TrieView {
        match slot {
            Slot::Inetnum => TrieView {
                inetnums: self.inetnums.insert(prefix, payload),
                routes: self.routes,
            },
            Slot::Route => TrieView {
                inetnums: self.inetnums,
                routes: self.routes.insert(prefix, payload),
            },
        }
    }
}

/// A binary trie over the bits of an address, most significant bit first. The
/// node that a sequence of bits leads to stands for the prefix made of those
/// bits.
pub struct IPTrie {
    zero: Option<Box<IPTrie>>,
    one: Option<Box<IPTrie>>,
    pub inetnum: Option<Resource>,
    pub route: Option<Resource>,
}

impl IPTrie {
    /// The node below this one on the side of `bit`.
    pub closed spec fn child(self, bit: bool) -> Option<IPTrie> {
        if bit {
            match self.one {
                Some(b) => Some(*b),
                None => None,
            }
        } else {
            match self.zero {
                Some(b) => Some(*b),
                None => None,
            }
        }
    }

    /// The node that `path` leads to from this one.
    pub open spec fn node_at(self, path: Seq<bool>) -> Option<IPTrie>
        decreases path.len(),
    {
        if path.len() == 0 {
            Some(self)
        } else {
            match self.child(path[0]) {
                Some(c) => c.node_at(path.skip(1)),
                None => None,
            }
        }
    }

    /// The payload of one kind that this node holds.
    pub closed spec fn payload(self, slot: Slot) -> Option<ResourceView> {
        match slot {
            Slot::Inetnum => payload_view(self.inetnum),
            Slot::Route => payload_view(self.route),
        }
    }

    /// The payload of one kind at the node that `path` leads to.
    pub open spec fn payload_at(self, slot: Slot, path: Seq<bool>) -> Option<ResourceView> {
        match self.node_at(path) {
            Some(n) => n.payload(slot),
            None => None,
        }
    }

    /// The payloads of one kind, by the path to their node.
    pub open spec fn payloads(self, slot: Slot) -> Map<Seq<bool>, ResourceView> {
        Map::new(
            |p: Seq<bool>| self.payload_at(slot, p).is_some(),
            |p: Seq<bool>| self.payload_at(slot, p).unwrap(),
        )
    }

    /// The number of steps along `path` for which a node exists.
    pub open spec fn reach(self, path: Seq<bool>) -> nat
        decreases path.len(),
    {
        if path.len() == 0 {
            0
        } else {
            match self.child(path[0]) {
                Some(c) => 1 + c.reach(path.skip(1)),
                None => 0,
            }
        }
    }

    /// The nodes met on the way along `path`, this one first.
    pub open spec fn visited(self, path: Seq<bool>) -> Seq<IPTrie> {
        Seq::new(self.reach(path) + 1, |d: int| self.node_at(path.take(d)).unwrap())
    }
}

impl View for IPTrie {
    type V = TrieView;

    open spec fn view(&self) -> TrieView {
        TrieView { inetnums: self.payloads(Slot::Inetnum), routes: self.payloads(Slot::Route) }
    }
}

impl IPTrie {
    /// A trie that holds nothing.
    pub fn new() -> (r: Self)
        ensures
            r.child(false).is_none(),
            r.child(true).is_none(),
            r.payload(Slot::Inetnum).is_none(),
            r.payload(Slot::Route).is_none(),
            r@.inetnums == Map::<Seq<bool>, ResourceView>::empty(),
            r@.routes == Map::<Seq<bool>, ResourceView>::empty(),
    {
        let r = IPTrie { zero: None, one: None, inetnum: None, route: None };
        proof {
            assert forall|slot: Slot, p: Seq<bool>| r.payload_at(slot, p).is_none() by {
                lemma_leaf_holds_nothing(r, slot, p);
            }
            assert(r@.inetnums =~= Map::<Seq<bool>, ResourceView>::empty());
            assert(r@.routes =~= Map::<Seq<bool>, ResourceView>::empty());
        }
        r
    }

    /// The node below this one on the side of `bit`, if there is one.
    pub fn child_ref(&self, bit: bool) -> (r: Option<&IPTrie>)
        ensures
            r.is_some() == self.child(bit).is_some(),
            r matches Some(c) ==> Some(*c) == self.child(bit),
    {
        if bit {
            match &self.one {
                Some(b) => Some(&**b),
                None => None,
            }
        } else {
            match &self.zero {
                Some(b) => Some(&**b),
                None => None,
            }
        }
    }

    /// The payload of one kind that this node holds, if it holds one.
    pub fn payload_ref(&self, slot: Slot) -> (r: Option<&Resource>)
        ensures
            r.is_some() == self.payload(slot).is_some(),
            r matches Some(p) ==> Some(p@) == self.payload(slot),
    {
        match slot {
            Slot::Inetnum => self.inetnum.as_ref(),
            Slot::Route => self.route.as_ref(),
        }
    }
}

/// A node without children holds nothing but its own payloads.
pub proof fn lemma_leaf_holds_nothing(node: IPTrie, slot: Slot, path: Seq<bool>)
    requires
        node.child(false).is_none(),
        node.child(true).is_none(),
        node.payload(slot).is_none(),
    ensures
        node.payload_at(slot, path).is_none(),
{
    if path.len() > 0 {
        assert(node.child(path[0]).is_none());
    }
}

/// The nodes that a list of references points to.
pub open spec fn nodes_of(refs: Seq<&IPTrie>) -> Seq<IPTrie> {
    refs.map_values(|n: &IPTrie| *n)
}

/// Bit `i` of `address`, counted from the most significant bit of the first
/// octet.
pub fn bit_of<const LEN: usize>(address: &[u8; LEN], i: usize) -> (b: bool)
    requires
        i < LEN * 8,
    ensures
        b == bit_at(address@, i as int),
{
    let byte: u8 = address[i / 8];
    let shift: u8 = (7 - i % 8) as u8;
    (byte >> shift) & 1 == 1
}

impl IPTrie {
    /// Walks from this node along the bits of `address`, from bit
    /// `current_bit` up to bit `target_bit`, and returns the nodes it meets,
    /// this one first: the node at index `d` stands `d` bits below this one.
    /// The walk ends early where the next node is missing.
    pub fn traverse<'a, const LEN: usize>(
        &'a self,
        address: &[u8; LEN],
        current_bit: usize,
        target_bit: usize,
    ) -> (nodes: Vec<&'a IPTrie>)
        requires
            current_bit <= target_bit <= LEN * 8,
        ensures
            nodes_of(nodes@) == self.visited(
                path_bits(address@, current_bit as int, target_bit as int),
            ),
    {
        let ghost path = path_bits(address@, current_bit as int, target_bit as int);
        let mut nodes: Vec<&'a IPTrie> = Vec::new();
        nodes.push(self);
        let mut node: &'a IPTrie = self;
        let mut bit: usize = current_bit;
        proof {
            assert(path.take(0) =~= Seq::<bool>::empty());
        }
        while bit < target_bit
            invariant
                current_bit <= bit <= target_bit <= LEN * 8,
                path == path_bits(address@, current_bit as int, target_bit as int),
                nodes@.len() == bit - current_bit + 1,
                forall|d: int|
                    0 <= d < nodes@.len() ==> Some(*#[trigger] nodes@[d]) == self.node_at(
                        path.take(d),
                    ),
                *node == *nodes@[bit - current_bit],
            decreases target_bit - bit,
        {
            let side = bit_of(address, bit);
            proof {
                lemma_node_at_step(*self, path, bit - current_bit);
            }
            match node.child_ref(side) {
                None => {
                    proof {
                        assert forall|d: int| 0 <= d <= bit - current_bit implies (#[trigger] self.node_at(
                            path.take(d),
                        )).is_some() by {
                            assert(Some(*nodes@[d]) == self.node_at(path.take(d)));
                        }
                        lemma_reach(*self, path, bit - current_bit);
                        assert(nodes_of(nodes@) =~= self.visited(path));
                    }
                    return nodes;
                },
                Some(c) => {
                    nodes.push(c);
                    node = c;
                    bit += 1;
                },
            }
        }
        proof {
            assert forall|d: int| 0 <= d <= bit - current_bit implies (#[trigger] self.node_at(
                path.take(d),
            )).is_some() by {
                assert(Some(*nodes@[d]) == self.node_at(path.take(d)));
            }
            lemma_reach(*self, path, bit - current_bit);
            assert(nodes_of(nodes@) =~= self.visited(path));
        }
        nodes
    }
}

/// One step further along a path leads to the child of the node reached so
/// far.
pub proof fn lemma_node_at_step(node: IPTrie, path: Seq<bool>, k: int)
    requires
        0 <= k < path.len(),
    ensures
        node.node_at(path.take(k + 1)) == match node.node_at(path.take(k)) {
            Some(n) => n.child(path[k]),
            None => None,
        },
    decreases k,
{
    assert(path.take(k + 1).skip(1) =~= path.skip(1).take(k));
    if k == 0 {
        assert(path.take(0) =~= Seq::<bool>::empty());
        match node.child(path[0]) {
            Some(c) => {
                assert(c.node_at(path.skip(1).take(0)) == Some(c));
            },
            None => {},
        }
    } else {
        assert(path.take(k).skip(1) =~= path.skip(1).take(k - 1));
        match node.child(path[0]) {
            Some(c) => {
                lemma_node_at_step(c, path.skip(1), k - 1);
            },
            None => {},
        }
    }
}

/// The walk along a path reaches depth `k` when a node stands at every depth
/// up to `k` and either the path ends there or the next node is missing.
pub proof fn lemma_reach(node: IPTrie, path: Seq<bool>, k: int)
    requires
        0 <= k <= path.len(),
        forall|d: int| 0 <= d <= k ==> (#[trigger] node.node_at(path.take(d))).is_some(),
        k < path.len() ==> node.node_at(path.take(k + 1)).is_none(),
    ensures
        node.reach(path) == k,
    decreases path.len(),
{
    if path.len() > 0 {
        assert(path.take(1).skip(1) =~= Seq::<bool>::empty());
        assert(path.take(1)[0] == path[0]);
        match node.child(path[0]) {
            Some(c) => {
                assert(c.node_at(Seq::<bool>::empty()) == Some(c));
                assert(node.node_at(path.take(1)) == Some(c));
                assert(k >= 1);
                let rest = path.skip(1);
                assert forall|d: int| 0 <= d <= k - 1 implies (#[trigger] c.node_at(
                    rest.take(d),
                )).is_some() by {
                    assert(path.take(d + 1).skip(1) =~= rest.take(d));
                    assert(node.node_at(path.take(d + 1)).is_some());
                }
                if k < path.len() {
                    assert(path.take(k + 1).skip(1) =~= rest.take(k));
                }
                lemma_reach(c, rest, k - 1);
            },
            None => {
                assert(node.node_at(path.take(1)).is_none());
                if k >= 1 {
                    assert(node.node_at(path.take(1)).is_some());
                }
            },
        }
    }
}

/// `after` holds what `before` held, but for the payload of kind `slot` at
/// `path`, which is `payload`.
pub open spec fn stored(
    before: IPTrie,
    after: IPTrie,
    slot: Slot,
    path: Seq<bool>,
    payload: ResourceView,
) -> bool {
    forall|s: Slot, q: Seq<bool>| #[trigger]
        after.payload_at(s, q) == if s == slot && q == path {
            Some(payload)
        } else {
            before.payload_at(s, q)
        }
}

/// A trie in which one payload was stored has the view of the trie before,
/// with that payload stored.
pub proof fn lemma_stored_view(
    before: IPTrie,
    after: IPTrie,
    slot: Slot,
    path: Seq<bool>,
    payload: ResourceView,
)
    requires
        stored(before, after, slot, path, payload),
    ensures
        after@ == before@.store(slot, path, payload),
{
    assert forall|s: Slot| #[trigger] after.payloads(s) == before@.store(slot, path, payload).slot(s) by {
        let m = before@.store(slot, path, payload).slot(s);
        assert forall|q: Seq<bool>| #[trigger]
            after.payloads(s).dom().contains(q) == m.dom().contains(q) by {
            assert(after.payload_at(s, q) == if s == slot && q == path {
                Some(payload)
            } else {
                before.payload_at(s, q)
            });
        }
        assert forall|q: Seq<bool>| #[trigger]
            after.payloads(s).dom().contains(q) implies after.payloads(s)[q] == m[q] by {
            assert(after.payload_at(s, q) == if s == slot && q == path {
                Some(payload)
            } else {
                before.payload_at(s, q)
            });
        }
        assert(after.payloads(s) =~= m);
    }
    assert(after.payloads(Slot::Inetnum) == before@.store(slot, path, payload).slot(Slot::Inetnum));
    assert(after.payloads(Slot::Route) == before@.store(slot, path, payload).slot(Slot::Route));
}

impl IPTrie {
    /// Walks from this node along the bits of `address`, from bit
    /// `current_bit` up to bit `target_bit`, makes the nodes that are missing
    /// on the way, and stores `payload` in `slot` of the node it arrives at.
    pub fn traverse_mut<const LEN: usize>(
        &mut self,
        address: &[u8; LEN],
        current_bit: usize,
        target_bit: usize,
        slot: Slot,
        payload: Resource,
    )
        requires
            current_bit <= target_bit <= LEN * 8,
        ensures
            final(self)@ == old(self)@.store(
                slot,
                path_bits(address@, current_bit as int, target_bit as int),
                payload@,
            ),
            stored(
                *old(self),
                *final(self),
                slot,
                path_bits(address@, current_bit as int, target_bit as int),
                payload@,
            ),
        decreases target_bit - current_bit,
    {
        let ghost path = path_bits(address@, current_bit as int, target_bit as int);
        let ghost stored_payload = payload@;
        if current_bit == target_bit {
            match slot {
                Slot::Inetnum => {
                    self.inetnum = Some(payload);
                },
                Slot::Route => {
                    self.route = Some(payload);
                },
            }
            proof {
                assert(path =~= Seq::<bool>::empty());
                assert(self.child(false) == old(self).child(false));
                assert(self.child(true) == old(self).child(true));
                assert forall|s: Slot, q: Seq<bool>| #[trigger]
                    self.payload_at(s, q) == if s == slot && q == path {
                        Some(stored_payload)
                    } else {
                        old(self).payload_at(s, q)
                    } by {
                    if q.len() > 0 {
                        assert(self.child(q[0]) == old(self).child(q[0]));
                    } else {
                        assert(q =~= path);
                    }
                }
                lemma_stored_view(*old(self), *self, slot, path, stored_payload);
            }
            return ;
        }
        let side = bit_of(address, current_bit);
        let taken = if side {
            self.one.take()
        } else {
            self.zero.take()
        };
        let mut below: Box<IPTrie> = match taken {
            Some(c) => c,
            None => Box::new(IPTrie::new()),
        };
        let ghost before_below = *below;
        below.traverse_mut(address, current_bit + 1, target_bit, slot, payload);
        let ghost after_below = *below;
        if side {
            self.one = Some(below);
        } else {
            self.zero = Some(below);
        }
        proof {
            let rest = path_bits(address@, current_bit + 1, target_bit as int);
            assert(path.skip(1) =~= rest);
            assert(path[0] == side);
            assert(self.child(side) == Some(after_below));
            assert(self.child(!side) == old(self).child(!side));
            assert(self.payload(Slot::Inetnum) == old(self).payload(Slot::Inetnum));
            assert(self.payload(Slot::Route) == old(self).payload(Slot::Route));
            assert forall|s: Slot, q: Seq<bool>| #[trigger]
                self.payload_at(s, q) == if s == slot && q == path {
                    Some(stored_payload)
                } else {
                    old(self).payload_at(s, q)
                } by {
                if q.len() == 0 {
                } else if q[0] != side {
                    assert(self.child(q[0]) == old(self).child(q[0]));
                } else {
                    assert(after_below.payload_at(s, q.skip(1)) == if s == slot && q.skip(1)
                        == rest {
                        Some(stored_payload)
                    } else {
                        before_below.payload_at(s, q.skip(1))
                    });
                    if q.skip(1) == rest {
                        assert(q.len() == path.len());
                        assert forall|i: int| 0 <= i < q.len() implies q[i] == path[i] by {
                            if i > 0 {
                                assert(q[i] == q.skip(1)[i - 1]);
                                assert(path[i] == path.skip(1)[i - 1]);
                            }
                        }
                        assert(q =~= path);
                    }
                    match old(self).child(side) {
                        Some(c) => {
                            assert(c == before_below);
                        },
                        None => {
                            lemma_leaf_holds_nothing(before_below, s, q.skip(1));
                        },
                    }
                }
            }
            lemma_stored_view(*old(self), *self, slot, path, stored_payload);
        }
    }
}

/// The bits that an IPv4 prefix fixes, given by its address and its length:
/// the path to its node.
pub open spec fn prefix_v4(parts: (u32, u8)) -> Seq<bool> {
    path_bits(octets_v4(parts.0), 0, parts.1 as int)
}

/// The bits that an IPv6 prefix fixes, given by its address and its length:
/// the path to its node.
pub open spec fn prefix_v6(parts: (u128, u8)) -> Seq<bool> {
    path_bits(octets_v6(parts.0), 0, parts.1 as int)
}

/// The objects that a trie holds: delegations and announcements.
pub open spec fn has_prefix(resource: ResourceView) -> bool {
    resource is Inetnum || resource is Inet6num || resource is Route || resource is Route6
}

/// The kind of payload that an object is: a delegation or an announcement.
pub open spec fn slot_of(resource: ResourceView) -> Slot {
    if resource is Route || resource is Route6 {
        Slot::Route
    } else {
        Slot::Inetnum
    }
}

/// The path to the node of an object's prefix.
pub open spec fn prefix_of(resource: ResourceView) -> Seq<bool> {
    match resource {
        ResourceView::Inetnum(x) => prefix_v4(x.cidr.parts()),
        ResourceView::Route(x) => prefix_v4(x.cidr.parts()),
        ResourceView::Inet6num(x) => prefix_v6(x.cidr.parts()),
        ResourceView::Route6(x) => prefix_v6(x.cidr.parts()),
        _ => Seq::empty(),
    }
}

impl IPTrie {
    /// Stores a copy of a delegation or an announcement at the node of its
    /// prefix. An object of the same kind that the node held is replaced.
    pub fn add(&mut self, resource: &Resource)
        requires
            has_prefix(resource@),
        ensures
            final(self)@ == old(self)@.store(slot_of(resource@), prefix_of(resource@), resource@),
    {
        match resource {
            Resource::Inetnum(inetnum) => {
                let address: [u8; 4] = inetnum.cidr.octets();
                let target_bit: usize = inetnum.cidr.network_length() as usize;
                self.traverse_mut(
                    &address,
                    0,
                    target_bit,
                    Slot::Inetnum,
                    Resource::Inetnum(inetnum.clone()),
                );
            },
            Resource::Inet6num(inet6num) => {
                let address: [u8; 16] = inet6num.cidr.octets();
                let target_bit: usize = inet6num.cidr.network_length() as usize;
                self.traverse_mut(
                    &address,
                    0,
                    target_bit,
                    Slot::Inetnum,
                    Resource::Inet6num(inet6num.clone()),
                );
            },
            Resource::Route(route) => {
                let address: [u8; 4] = route.cidr.octets();
                let target_bit: usize = route.cidr.network_length() as usize;
                self.traverse_mut(
                    &address,
                    0,
                    target_bit,
                    Slot::Route,
                    Resource::Route(route.clone()),
                );
            },
            Resource::Route6(route6) => {
                let address: [u8; 16] = route6.cidr.octets();
                let target_bit: usize = route6.cidr.network_length() as usize;
                self.traverse_mut(
                    &address,
                    0,
                    target_bit,
                    Slot::Route,
                    Resource::Route6(route6.clone()),
                );
            },
            _ => {},
        }
    }
}

/// The payloads that `m` holds at the first `n` prefixes of `path`, the
/// shortest prefix first.
pub open spec fn covering_first(m: Map<Seq<bool>, ResourceView>, path: Seq<bool>, n: nat) -> Seq<
    ResourceView,
>
    decreases n,
{
    if n == 0 {
        Seq::empty()
    } else {
        let p = path.take(n - 1);
        let before = covering_first(m, path, (n - 1) as nat);
        if m.dom().contains(p) {
            before.push(m[p])
        } else {
            before
        }
    }
}

/// The payloads that `m` holds at the prefixes of `path`, `path` itself
/// among them, the shortest prefix first.
pub open spec fn covering(m: Map<Seq<bool>, ResourceView>, path: Seq<bool>) -> Seq<ResourceView> {
    covering_first(m, path, path.len() + 1)
}

/// The lengths of the first `n` prefixes of `path` at which `m` holds a
/// payload, in rising order.
pub open spec fn covering_depths_first(
    m: Map<Seq<bool>, ResourceView>,
    path: Seq<bool>,
    n: nat,
) -> Seq<int>
    decreases n,
{
    if n == 0 {
        Seq::empty()
    } else {
        let before = covering_depths_first(m, path, (n - 1) as nat);
        if m.dom().contains(path.take(n - 1)) {
            before.push(n - 1)
        } else {
            before
        }
    }
}

/// The lengths of the prefixes of `path` at which `m` holds a payload, in
/// rising order.
pub open spec fn covering_depths(m: Map<Seq<bool>, ResourceView>, path: Seq<bool>) -> Seq<int> {
    covering_depths_first(m, path, path.len() + 1)
}

/// What each payload of a list holds.
pub open spec fn payload_views(refs: Seq<&Resource>) -> Seq<ResourceView> {
    refs.map_values(|r: &Resource| r@)
}

/// A node stands at every depth that the walk along a path reaches, and none
/// at any depth beyond.
pub proof fn lemma_reach_is_tight(node: IPTrie, path: Seq<bool>)
    ensures
        node.reach(path) <= path.len(),
        forall|d: int|
            0 <= d <= path.len() ==> (#[trigger] node.node_at(path.take(d))).is_some() == (d
                <= node.reach(path)),
    decreases path.len(),
{
    assert(path.take(0) =~= Seq::<bool>::empty());
    if path.len() > 0 {
        let rest = path.skip(1);
        match node.child(path[0]) {
            Some(c) => {
                lemma_reach_is_tight(c, rest);
                assert forall|d: int| 0 <= d <= path.len() implies (#[trigger] node.node_at(
                    path.take(d),
                )).is_some() == (d <= node.reach(path)) by {
                    if d > 0 {
                        assert(path.take(d).skip(1) =~= rest.take(d - 1));
                        assert(path.take(d)[0] == path[0]);
                        assert(c.node_at(rest.take(d - 1)).is_some() == (d - 1 <= c.reach(rest)));
                    }
                }
            },
            None => {
                assert forall|d: int| 0 <= d <= path.len() implies (#[trigger] node.node_at(
                    path.take(d),
                )).is_some() == (d <= node.reach(path)) by {
                    if d > 0 {
                        assert(path.take(d)[0] == path[0]);
                    }
                }
            },
        }
    }
}

impl IPTrie {
    /// The payloads of one kind at the nodes on the way along the first
    /// `target_bit` bits of `address`, the node nearest to this one first:
    /// what the trie holds at the prefixes of that path, shortest first.
    pub fn payloads_on_path<'a, const LEN: usize>(
        &'a self,
        address: &[u8; LEN],
        target_bit: usize,
        slot: Slot,
    ) -> (found: Vec<&'a Resource>)
        requires
            target_bit <= LEN * 8,
        ensures
            payload_views(found@) == covering(
                self.payloads(slot),
                path_bits(address@, 0, target_bit as int),
            ),
    {
        let ghost path = path_bits(address@, 0, target_bit as int);
        let ghost m = self.payloads(slot);
        let nodes = self.traverse(address, 0, target_bit);
        let mut found: Vec<&'a Resource> = Vec::new();
        let mut i: usize = 0;
        proof {
            lemma_reach_is_tight(*self, path);
            assert(nodes@.len() == nodes_of(nodes@).len());
            assert(payload_views(found@) =~= covering_first(m, path, 0));
        }
        while i < nodes.len()
            invariant
                i <= nodes.len(),
                nodes@.len() == self.reach(path) + 1,
                self.reach(path) <= path.len(),
                nodes_of(nodes@) == self.visited(path),
                m == self.payloads(slot),
                forall|d: int|
                    0 <= d <= path.len() ==> (#[trigger] self.node_at(path.take(d))).is_some() == (d
                        <= self.reach(path)),
                payload_views(found@) == covering_first(m, path, i as nat),
            decreases nodes.len() - i,
        {
            let node: &'a IPTrie = nodes[i];
            proof {
                assert(*node == nodes_of(nodes@)[i as int]);
                assert(self.node_at(path.take(i as int)).is_some());
                assert(Some(*node) == self.node_at(path.take(i as int)));
            }
            match node.payload_ref(slot) {
                Some(p) => {
                    let ghost before = found@;
                    found.push(p);
                    proof {
                        assert(payload_views(found@) =~= payload_views(before).push(p@));
                    }
                },
                None => {},
            }
            i += 1;
        }
        proof {
            lemma_covering_ends_at_reach(*self, slot, path, (path.len() + 1) as nat);
        }
        found
    }
}

/// No payload stands at a depth that the walk along a path does not reach.
pub proof fn lemma_covering_ends_at_reach(node: IPTrie, slot: Slot, path: Seq<bool>, n: nat)
    requires
        node.reach(path) + 1 <= n <= path.len() + 1,
    ensures
        covering_first(node.payloads(slot), path, n) == covering_first(
            node.payloads(slot),
            path,
            node.reach(path) + 1,
        ),
    decreases n,
{
    if n > node.reach(path) + 1 {
        lemma_reach_is_tight(node, path);
        assert(node.node_at(path.take(n - 1)).is_none());
        assert(node.payload_at(slot, path.take(n - 1)).is_none());
        lemma_covering_ends_at_reach(node, slot, path, (n - 1) as nat);
    }
}

/// One insertion into a trie: the kind of the payload, the bits of its
/// prefix, and the payload.
pub struct Insertion {
    pub slot: Slot,
    pub prefix: Seq<bool>,
    pub payload: ResourceView,
}

/// The view of a trie that holds nothing.
pub open spec fn empty_view() -> TrieView {
    TrieView { inetnums: Map::empty(), routes: Map::empty() }
}

/// What a trie holds after the insertions of a list were made, in the list's
/// order, into a trie that held nothing.
pub open spec fn after_insertions(ins: Seq<Insertion>) -> TrieView
    decreases ins.len(),
{
    if ins.len() == 0 {
        empty_view()
    } else {
        after_insertions(ins.drop_last()).store(
            ins.last().slot,
            ins.last().prefix,
            ins.last().payload,
        )
    }
}

/// Insertion `i` is the last of the list that stores a payload of kind `slot`
/// at `prefix`.
pub open spec fn is_last_at(ins: Seq<Insertion>, i: int, slot: Slot, prefix: Seq<bool>) -> bool {
    &&& 0 <= i < ins.len()
    &&& ins[i].slot == slot
    &&& ins[i].prefix == prefix
    &&& forall|j: int| i < j < ins.len() ==> !(#[trigger] ins[j].slot == slot && ins[j].prefix == prefix)
}

/// A prefix covers a path when the path begins with the prefix's bits.
pub open spec fn covers(prefix: Seq<bool>, path: Seq<bool>) -> bool {
    prefix.len() <= path.len() && path.take(prefix.len() as int) == prefix
}

/// After a list of insertions a trie holds a payload of a kind at a prefix
/// exactly if some insertion stored one there, and it holds the payload of
/// the last insertion that did.
pub proof fn lemma_holds_last_inserted(ins: Seq<Insertion>, slot: Slot, prefix: Seq<bool>)
    ensures
        after_insertions(ins).slot(slot).dom().contains(prefix) <==> exists|i: int|
            is_last_at(ins, i, slot, prefix),
        forall|i: int|
            is_last_at(ins, i, slot, prefix) ==> after_insertions(ins).slot(slot)[prefix]
                == ins[i].payload,
    decreases ins.len(),
{
    if ins.len() == 0 {
        assert(!after_insertions(ins).slot(slot).dom().contains(prefix));
    } else {
        let head = ins.drop_last();
        let last = ins.last();
        lemma_holds_last_inserted(head, slot, prefix);
        if last.slot == slot && last.prefix == prefix {
            assert(is_last_at(ins, ins.len() - 1, slot, prefix));
            assert forall|i: int| is_last_at(ins, i, slot, prefix) implies i == ins.len() - 1 by {
                if i < ins.len() - 1 {
                    assert(ins[ins.len() - 1].slot == slot);
                }
            }
        } else {
            assert(after_insertions(ins).slot(slot).dom().contains(prefix)
                == after_insertions(head).slot(slot).dom().contains(prefix));
            assert forall|i: int| is_last_at(head, i, slot, prefix) implies is_last_at(
                ins,
                i,
                slot,
                prefix,
            ) by {
                assert(ins[i] == head[i]);
                assert forall|j: int| i < j < ins.len() implies !(#[trigger] ins[j].slot == slot
                    && ins[j].prefix == prefix) by {
                    if j < ins.len() - 1 {
                        assert(ins[j] == head[j]);
                    }
                }
            }
            assert forall|i: int| is_last_at(ins, i, slot, prefix) implies is_last_at(
                head,
                i,
                slot,
                prefix,
            ) && after_insertions(ins).slot(slot)[prefix] == ins[i].payload by {
                assert(i < ins.len() - 1);
                assert(ins[i] == head[i]);
                assert forall|j: int| i < j < head.len() implies !(#[trigger] head[j].slot
                    == slot && head[j].prefix == prefix) by {
                    assert(ins[j] == head[j]);
                }
                assert(is_last_at(head, i, slot, prefix));
                assert(after_insertions(head).slot(slot)[prefix] == head[i].payload);
            }
            if after_insertions(ins).slot(slot).dom().contains(prefix) {
                let i = choose|i: int| is_last_at(head, i, slot, prefix);
                assert(is_last_at(ins, i, slot, prefix));
            }
        }
    }
}

/// The payloads found at the first `n` prefixes of a path are those that the
/// map holds there, one for each such prefix, in the rising order of the
/// prefixes' lengths.
pub proof fn lemma_covering_first(m: Map<Seq<bool>, ResourceView>, path: Seq<bool>, n: nat)
    ensures
        covering_first(m, path, n).len() == covering_depths_first(m, path, n).len(),
        forall|j: int|
            0 <= j < covering_depths_first(m, path, n).len() ==> {
                let d = #[trigger] covering_depths_first(m, path, n)[j];
                &&& 0 <= d < n
                &&& m.dom().contains(path.take(d))
                &&& covering_first(m, path, n)[j] == m[path.take(d)]
            },
        forall|j: int, k: int|
            0 <= j < k < covering_depths_first(m, path, n).len() ==> covering_depths_first(
                m,
                path,
                n,
            )[j] < covering_depths_first(m, path, n)[k],
        forall|d: int|
            0 <= d < n && m.dom().contains(#[trigger] path.take(d)) ==> covering_depths_first(
                m,
                path,
                n,
            ).contains(d),
    decreases n,
{
    if n > 0 {
        let before = covering_depths_first(m, path, (n - 1) as nat);
        let now = covering_depths_first(m, path, n);
        lemma_covering_first(m, path, (n - 1) as nat);
        assert forall|d: int| 0 <= d < n && m.dom().contains(#[trigger] path.take(d)) implies now.contains(
            d,
        ) by {
            if d < n - 1 {
                assert(before.contains(d));
                let j = choose|j: int| 0 <= j < before.len() && before[j] == d;
                assert(now[j] == d);
            } else {
                assert(now[now.len() - 1] == d);
            }
        }
    }
}

/// Whatever was inserted into a trie that held nothing, the payloads of a kind
/// found along a path are exactly those of the inserted prefixes of that kind
/// that cover the path, each with the payload inserted last at it, in the rising
/// order of the prefixes' lengths.
pub proof fn lemma_enumeration_visits_covering_prefixes(
    ins: Seq<Insertion>,
    slot: Slot,
    path: Seq<bool>,
)
    ensures
        ({
            let m = after_insertions(ins).slot(slot);
            let depths = covering_depths(m, path);
            let found = covering(m, path);
            &&& found.len() == depths.len()
            &&& forall|j: int|
                0 <= j < depths.len() ==> 0 <= #[trigger] depths[j] <= path.len() && exists|i: int|
                    is_last_at(ins, i, slot, path.take(depths[j])) && found[j] == ins[i].payload
            &&& forall|j: int, k: int| 0 <= j < k < depths.len() ==> depths[j] < depths[k]
            &&& forall|i: int|
                0 <= i < ins.len() && ins[i].slot == slot && covers(
                    (#[trigger] ins[i]).prefix,
                    path,
                ) ==> depths.contains(ins[i].prefix.len() as int)
        }),
{
    let m = after_insertions(ins).slot(slot);
    let depths = covering_depths(m, path);
    let found = covering(m, path);
    lemma_covering_first(m, path, path.len() + 1);
    assert forall|j: int| 0 <= j < depths.len() implies 0 <= #[trigger] depths[j] <= path.len()
        && exists|i: int|
        is_last_at(ins, i, slot, path.take(depths[j])) && found[j] == ins[i].payload by {
        let p = path.take(depths[j]);
        lemma_holds_last_inserted(ins, slot, p);
        let i = choose|i: int| is_last_at(ins, i, slot, p);
        assert(is_last_at(ins, i, slot, p) && found[j] == ins[i].payload);
    }
    assert forall|i: int|
        0 <= i < ins.len() && ins[i].slot == slot && covers(
            (#[trigger] ins[i]).prefix,
            path,
        ) implies depths.contains(ins[i].prefix.len() as int) by {
        let p = ins[i].prefix;
        lemma_inserted_is_held(ins, i);
        assert(path.take(p.len() as int) == p);
    }
}

/// A trie holds a payload at every prefix at which one was inserted.
pub proof fn lemma_inserted_is_held(ins: Seq<Insertion>, i: int)
    requires
        0 <= i < ins.len(),
    ensures
        after_insertions(ins).slot(ins[i].slot).dom().contains(ins[i].prefix),
    decreases ins.len(),
{
    if i < ins.len() - 1 {
        lemma_inserted_is_held(ins.drop_last(), i);
        assert(ins.drop_last()[i] == ins[i]);
    }
}

/// Nothing is found along a path in a trie that holds nothing.
pub proof fn lemma_covering_nothing(path: Seq<bool>, n: nat)
    ensures
        covering_first(Map::<Seq<bool>, ResourceView>::empty(), path, n) == Seq::<
            ResourceView,
        >::empty(),
    decreases n,
{
    if n > 0 {
        lemma_covering_nothing(path, (n - 1) as nat);
    }
}

} // verus!
