use crate::resource::domain::{clone_ns_option, ns_views_of, NsView, NS};
use crate::resource::{clone_text, text_of};
use crate::util::cidr::Ipv4CidrWrapper;
use vstd::prelude::*;

verus! {

/// The delegation of an IPv4 prefix, with the name servers that answer
/// reverse queries for it, if it names any.
#[derive(Debug)]
pub struct Inetnum {
    pub cidr: Ipv4CidrWrapper,
    pub description: Option<String>,
    pub ns: Option<Vec<NS>>,
}

/// What an IPv4 delegation holds.
pub struct InetnumView {
    pub cidr: Ipv4CidrWrapper,
    pub description: Option<Seq<char>>,
    pub ns: Option<Seq<NsView>>,
}

impl View for Inetnum {
    type V = InetnumView;

    open spec fn view(&self) -> InetnumView {
        InetnumView {
            cidr: self.cidr,
            description: text_of(self.description),
            ns: ns_views_of(self.ns),
        }
    }
}

impl Clone for Inetnum {
    fn clone(&self) -> (r: Self)
        ensures
            r@ == self@,
    {
        Inetnum {
            cidr: self.cidr,
            description: clone_text(&self.description),
            ns: clone_ns_option(&self.ns),
        }
    }
}

} // verus!
