use crate::resource::{clone_text, text_of};
use vstd::prelude::*;

verus! {

/// A name server of a zone, with the addresses it is reached at.
#[derive(Debug)]
pub struct NS {
    pub server: String,
    /// The server's IPv4 address, as a number.
    pub a: Option<u32>,
    /// The server's IPv6 address, as a number.
    pub aaaa: Option<u128>,
}

/// What a name server entry holds.
pub struct NsView {
    pub server: Seq<char>,
    pub a: Option<u32>,
    pub aaaa: Option<u128>,
}

impl View for NS {
    type V = NsView;

    open spec fn view(&self) -> NsView {
        NsView { server: self.server@, a: self.a, aaaa: self.aaaa }
    }
}

impl Clone for NS {
    fn clone(&self) -> (r: Self)
        ensures
            r@ == self@,
    {
        NS { server: self.server.clone(), a: self.a, aaaa: self.aaaa }
    }
}

/// What each entry of a list of name servers holds.
pub open spec fn ns_views(list: Seq<NS>) -> Seq<NsView> {
    list.map_values(|n: NS| n@)
}

/// What an optional list of name servers holds.
pub open spec fn ns_views_of(list: Option<Vec<NS>>) -> Option<Seq<NsView>> {
    match list {
        Some(l) => Some(ns_views(l@)),
        None => None,
    }
}

/// A copy of a list of name servers.
pub fn clone_ns_list(list: &Vec<NS>) -> (r: Vec<NS>)
    ensures
        ns_views(r@) == ns_views(list@),
{
    let mut out: Vec<NS> = Vec::new();
    let mut i: usize = 0;
    while i < list.len()
        invariant
            i <= list.len(),
            out.len() == i,
            forall|j: int| 0 <= j < i ==> out@[j]@ == list@[j]@,
        decreases list.len() - i,
    {
        out.push(list[i].clone());
        i += 1;
    }
    proof {
        assert(ns_views(out@) =~= ns_views(list@));
    }
    out
}

/// A copy of an optional list of name servers.
pub fn clone_ns_option(list: &Option<Vec<NS>>) -> (r: Option<Vec<NS>>)
    ensures
        ns_views_of(r) == ns_views_of(*list),
{
    match list {
        Some(l) => Some(clone_ns_list(l)),
        None => None,
    }
}

/// A zone under the registry's top-level label, and its name servers.
#[derive(Debug)]
pub struct Domain {
    pub domain: String,
    pub description: Option<String>,
    pub ns: Vec<NS>,
}

/// What a domain holds.
pub struct DomainView {
    pub domain: Seq<char>,
    pub description: Option<Seq<char>>,
    pub ns: Seq<NsView>,
}

impl View for Domain {
    type V = DomainView;

    open spec fn view(&self) -> DomainView {
        DomainView {
            domain: self.domain@,
            description: text_of(self.description),
            ns: ns_views(self.ns@),
        }
    }
}

impl Clone for Domain {
    fn clone(&self) -> (r: Self)
        ensures
            r@ == self@,
    {
        Domain {
            domain: self.domain.clone(),
            description: clone_text(&self.description),
            ns: clone_ns_list(&self.ns),
        }
    }
}

} // verus!
