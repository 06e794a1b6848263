use crate::resource::{clone_text, clone_texts, text_of, texts_of};
use crate::util::cidr::Ipv4CidrWrapper;
use vstd::prelude::*;

verus! {

/// The announcement of an IPv4 prefix: the autonomous systems that may
/// originate it.
#[derive(Debug)]
pub struct Route {
    pub cidr: Ipv4CidrWrapper,
    pub description: Option<String>,
    pub origin: Vec<String>,
}

/// What an IPv4 announcement holds.
pub struct RouteView {
    pub cidr: Ipv4CidrWrapper,
    pub description: Option<Seq<char>>,
    pub origin: Seq<Seq<char>>,
}

impl View for Route {
    type V = RouteView;

    open spec fn view(&self) -> RouteView {
        RouteView {
            cidr: self.cidr,
            description: text_of(self.description),
            origin: texts_of(self.origin@),
        }
    }
}

impl Clone for Route {
    fn clone(&self) -> (r: Self)
        ensures
            r@ == self@,
    {
        Route {
            cidr: self.cidr,
            description: clone_text(&self.description),
            origin: clone_texts(&self.origin),
        }
    }
}

} // verus!
