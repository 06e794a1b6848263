use crate::resource::domain::{clone_ns_option, ns_views_of, NsView, NS};
use crate::resource::{clone_text, text_of};
use crate::util::cidr::Ipv6CidrWrapper;
use vstd::prelude::*;

verus! {

/// The delegation of an IPv6 prefix, with the name servers that answer
/// reverse queries for it, if it names any.
#[derive(Debug)]
pub struct Inet6num {
    pub cidr: Ipv6CidrWrapper,
    pub description: Option<String>,
    pub ns: Option<Vec<NS>>,
}

/// What an IPv6 delegation holds.
pub struct Inet6numView {
    pub cidr: Ipv6CidrWrapper,
    pub description: Option<Seq<char>>,
    pub ns: Option<Seq<NsView>>,
}

impl View for Inet6num {
    type V = Inet6numView;

    open spec fn view(&self) -> Inet6numView {
        Inet6numView {
            cidr: self.cidr,
            description: text_of(self.description),
            ns: ns_views_of(self.ns),
        }
    }
}

impl Clone for Inet6num {
    fn clone(&self) -> (r: Self)
        ensures
            r@ == self@,
    {
        Inet6num {
            cidr: self.cidr,
            description: clone_text(&self.description),
            ns: clone_ns_option(&self.ns),
        }
    }
}

} // verus!
