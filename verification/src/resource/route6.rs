use crate::resource::{clone_text, clone_texts, text_of, texts_of};
use crate::util::cidr::Ipv6CidrWrapper;
use vstd::prelude::*;

verus! {

/// The announcement of an IPv6 prefix: the autonomous systems that may
/// originate it.
#[derive(Debug)]
pub struct Route6 {
    pub cidr: Ipv6CidrWrapper,
    pub description: Option<String>,
    pub origin: Vec<String>,
}

/// What an IPv6 announcement holds.
pub struct Route6View {
    pub cidr: Ipv6CidrWrapper,
    pub description: Option<Seq<char>>,
    pub origin: Seq<Seq<char>>,
}

impl View for Route6 {
    type V = Route6View;

    open spec fn view(&self) -> Route6View {
        Route6View {
            cidr: self.cidr,
            description: text_of(self.description),
            origin: texts_of(self.origin@),
        }
    }
}

impl Clone for Route6 {
    fn clone(&self) -> (r: Self)
        ensures
            r@ == self@,
    {
        Route6 {
            cidr: self.cidr,
            description: clone_text(&self.description),
            origin: clone_texts(&self.origin),
        }
    }
}

} // verus!
