use crate::resource::{clone_text, text_of};
use vstd::prelude::*;

verus! {

/// An autonomous system and its name.
#[derive(Debug)]
pub struct Autnum {
    pub autnum: String,
    pub name: String,
    pub description: Option<String>,
}

/// What an autnum holds.
pub struct AutnumView {
    pub autnum: Seq<char>,
    pub name: Seq<char>,
    pub description: Option<Seq<char>>,
}

impl View for Autnum {
    type V = AutnumView;

    open spec fn view(&self) -> AutnumView {
        AutnumView {
            autnum: self.autnum@,
            name: self.name@,
            description: text_of(self.description),
        }
    }
}

impl Clone for Autnum {
    fn clone(&self) -> (r: Self)
        ensures
            r@ == self@,
    {
        Autnum {
            autnum: self.autnum.clone(),
            name: self.name.clone(),
            description: clone_text(&self.description),
        }
    }
}

} // verus!
