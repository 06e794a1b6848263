use vstd::prelude::*;

pub mod autnum;
pub mod domain;
pub mod inet6num;
pub mod inetnum;
pub mod route;
pub mod route6;

verus! {

/// What an optional text holds.
pub open spec fn text_of(text: Option<String>) -> Option<Seq<char>> {
    match text {
        Some(s) => Some(s@),
        None => None,
    }
}

/// What each text of a list holds.
pub open spec fn texts_of(list: Seq<String>) -> Seq<Seq<char>> {
    list.map_values(|s: String| s@)
}

/// A copy of an optional text.
pub fn clone_text(text: &Option<String>) -> (r: Option<String>)
    ensures
        text_of(r) == text_of(*text),
{
    match text {
        Some(s) => Some(s.clone()),
        None => None,
    }
}

/// A copy of a list of texts.
pub fn clone_texts(list: &Vec<String>) -> (r: Vec<String>)
    ensures
        texts_of(r@) == texts_of(list@),
{
    let mut out: Vec<String> = Vec::new();
    let mut i: usize = 0;
    while i < list.len()
        invariant
            i <= list.len(),
            out.len() == i,
            forall|j: int| 0 <= j < i ==> out@[j]@ == list@[j]@,
        decreases list.len() - i,
    {
        out.push(list[i].clone());
        i += 1;
    }
    proof {
        assert(texts_of(out@) =~= texts_of(list@));
    }
    out
}

/// One object of the registry.
#[derive(Debug)]
pub enum Resource {
    Autnum(autnum::Autnum),
    Domain(domain::Domain),
    Inetnum(inetnum::Inetnum),
    Inet6num(inet6num::Inet6num),
    Route(route::Route),
    Route6(route6::Route6),
}

/// What a registry object holds.
pub enum ResourceView {
    Autnum(autnum::AutnumView),
    Domain(domain::DomainView),
    Inetnum(inetnum::InetnumView),
    Inet6num(inet6num::Inet6numView),
    Route(route::RouteView),
    Route6(route6::Route6View),
}

impl View for Resource {
    type V = ResourceView;

    open spec fn view(&self) -> ResourceView {
        match self {
            Resource::Autnum(x) => ResourceView::Autnum(x@),
            Resource::Domain(x) => ResourceView::Domain(x@),
            Resource::Inetnum(x) => ResourceView::Inetnum(x@),
            Resource::Inet6num(x) => ResourceView::Inet6num(x@),
            Resource::Route(x) => ResourceView::Route(x@),
            Resource::Route6(x) => ResourceView::Route6(x@),
        }
    }
}

impl Clone for Resource {
    fn clone(&self) -> (r: Self)
        ensures
            r@ == self@,
    {
        match self {
            Resource::Autnum(x) => Resource::Autnum(x.clone()),
            Resource::Domain(x) => Resource::Domain(x.clone()),
            Resource::Inetnum(x) => Resource::Inetnum(x.clone()),
            Resource::Inet6num(x) => Resource::Inet6num(x.clone()),
            Resource::Route(x) => Resource::Route(x.clone()),
            Resource::Route6(x) => Resource::Route6(x.clone()),
        }
    }
}

} // verus!
