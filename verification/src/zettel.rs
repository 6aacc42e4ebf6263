//! A note: one parsed document with its header, tags, links and body.

use vstd::prelude::*;
use crate::frontmatter::{FrontMatter, FrontMatterView};
use crate::id::ZettelId;
use crate::link::{Link, LinkView};
use crate::tag::{Tag, TagView};

verus! {

/// A note. `links` are the references that its body makes to other notes,
/// in the order in which the body makes them.
#[derive(PartialEq, Eq, PartialOrd, Ord, Debug)]
pub struct Zettel {
    pub path: String,
    pub id: ZettelId,
    pub front_matter: FrontMatter,
    pub tags: Vec<Tag>,
    pub links: Vec<Link>,
    pub content: String,
}

/// What a note holds, as mathematical values.
pub struct ZettelView {
    pub path: Seq<char>,
    pub id: Seq<char>,
    pub front_matter: FrontMatterView,
    pub tags: Seq<TagView>,
    pub links: Seq<LinkView>,
    pub content: Seq<char>,
}

/// The tags that a vector holds, as mathematical values.
pub open spec fn tag_views(v: Seq<Tag>) -> Seq<TagView> {
    Seq::new(v.len(), |i: int| v[i]@)
}

/// The links that a vector holds, as mathematical values.
pub open spec fn link_views(v: Seq<Link>) -> Seq<LinkView> {
    Seq::new(v.len(), |i: int| v[i]@)
}

/// The notes that a vector holds, as mathematical values.
pub open spec fn zettel_views(v: Seq<Zettel>) -> Seq<ZettelView> {
    Seq::new(v.len(), |i: int| v[i]@)
}

impl View for Zettel {
    type V = ZettelView;

    open spec fn view(&self) -> ZettelView {
        ZettelView {
            path: self.path@,
            id: self.id@,
            front_matter: self.front_matter@,
            tags: tag_views(self.tags@),
            links: link_views(self.links@),
            content: self.content@,
        }
    }
}

impl ZettelView {
    /// Whether every link of the note starts at the note itself.
    pub open spec fn links_from_self(self) -> bool {
        forall|i: int| 0 <= i < self.links.len() ==> (#[trigger] self.links[i]).source == self.id
    }
}

/// A copy of a vector of tags.
pub fn clone_tags(tags: &Vec<Tag>) -> (r: Vec<Tag>)
    ensures
        tag_views(r@) == tag_views(tags@),
{
    let mut out: Vec<Tag> = Vec::new();
    let mut i: usize = 0;
    while i < tags.len()
        invariant
            i <= tags.len(),
            out.len() == i,
            forall|j: int| 0 <= j < i ==> (#[trigger] out@[j])@ == tags@[j]@,
        decreases tags.len() - i,
    {
        out.push(tags[i].clone());
        i += 1;
    }
    assert(tag_views(out@) =~= tag_views(tags@));
    out
}

/// A copy of a vector of links.
pub fn clone_links(links: &Vec<Link>) -> (r: Vec<Link>)
    ensures
        link_views(r@) == link_views(links@),
{
    let mut out: Vec<Link> = Vec::new();
    let mut i: usize = 0;
    while i < links.len()
        invariant
            i <= links.len(),
            out.len() == i,
            forall|j: int| 0 <= j < i ==> (#[trigger] out@[j])@ == links@[j]@,
        decreases links.len() - i,
    {
        out.push(links[i].clone());
        i += 1;
    }
    assert(link_views(out@) =~= link_views(links@));
    out
}

impl Clone for Zettel {
    fn clone(&self) -> (r: Self)
        ensures
            r@ == self@,
    {
        Zettel {
            path: self.path.clone(),
            id: self.id.clone(),
            front_matter: self.front_matter.clone(),
            tags: clone_tags(&self.tags),
            links: clone_links(&self.links),
            content: self.content.clone(),
        }
    }
}

impl Zettel {
    /// A note without links.
    pub fn new(
        id: ZettelId,
        path: String,
        front_matter: FrontMatter,
        tags: Vec<Tag>,
        content: String,
    ) -> (r: Zettel)
        ensures
            r.id == id,
            r.path == path,
            r.front_matter == front_matter,
            r.tags == tags,
            r.content == content,
            r.links@.len() == 0,
            r@.links_from_self(),
    {
        Zettel { path, id, front_matter, tags, links: Vec::new(), content }
    }

    /// Whether every link of the note starts at the note itself.
    pub fn is_well_formed(&self) -> (r: bool)
        ensures
            r == self@.links_from_self(),
    {
        let mut i: usize = 0;
        while i < self.links.len()
            invariant
                i <= self.links.len(),
                forall|j: int| 0 <= j < i ==> (#[trigger] self@.links[j]).source == self@.id,
            decreases self.links.len() - i,
        {
            if !same_text(self.links[i].source.as_str(), self.id.as_str()) {
                assert(self@.links[i as int].source != self@.id);
                return false;
            }
            i += 1;
        }
        true
    }
}

/// Whether two texts are the same.
pub fn same_text(a: &str, b: &str) -> (r: bool)
    ensures
        r == (a@ == b@),
{
    let x = a.to_owned();
    let y = b.to_owned();
    x == y
}

} // verus!
