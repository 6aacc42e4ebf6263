//! A reference from one note to another.

use vstd::prelude::*;
use crate::id::ZettelId;

verus! {

/// A directed reference: the note `source` refers to the note `dest`.
#[derive(Debug, PartialEq, Eq, PartialOrd, Ord)]
pub struct Link {
    pub source: ZettelId,
    pub dest: ZettelId,
}

/// The two identifiers of a link.
pub struct LinkView {
    pub source: Seq<char>,
    pub dest: Seq<char>,
}

impl View for Link {
    type V = LinkView;

    open spec fn view(&self) -> LinkView {
        LinkView { source: self.source@, dest: self.dest@ }
    }
}

impl Clone for Link {
    fn clone(&self) -> (r: Self)
        ensures
            r@ == self@,
    {
        Link { source: self.source.clone(), dest: self.dest.clone() }
    }
}

impl Link {
    /// The link from `source` to `dest`.
    pub fn new(source: ZettelId, dest: ZettelId) -> (r: Link)
        ensures
            r@.source == source@,
            r@.dest == dest@,
    {
        Link { source, dest }
    }
}

} // verus!
