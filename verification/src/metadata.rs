//! What is known of a collection besides its notes.

use vstd::prelude::*;
use vstd::hash_map::StringHashMap;
use crate::error::ZkError;
use crate::tag::Tag;

verus! {

/// The tags of a collection and the directory that it lives in.
pub struct Metadata {
    /// The known tags, by name.
    pub tags: StringHashMap<Tag>,
    pub project_root: String,
}

/// The name of the tag that every lookup answers with.
pub open spec fn fallback_name() -> Seq<char> {
    seq!['l', 'o', 'l']
}

/// The colour of the tag that every lookup answers with.
pub open spec fn fallback_color() -> Seq<char> {
    seq!['w', 'a', 'h', 'o', 'o']
}

impl Metadata {
    /// The metadata of the collection rooted at `root`: no tags are known yet.
    pub fn parse(root: &str) -> (r: Result<Metadata, ZkError>)
        ensures
            r is Ok,
            r->Ok_0.project_root@ == root@,
            r->Ok_0.tags@ == Map::<Seq<char>, Tag>::empty(),
    {
        Ok(Metadata { tags: StringHashMap::new(), project_root: root.to_owned() })
    }

    /// The tag that a tag string stands for. Until tags carry more than a
    /// name every string stands for the same fallback tag.
    pub fn lookup_tag_string(&self, _tag_string: &str) -> (r: Option<Tag>)
        ensures
            r is Some,
            r->0@.name == fallback_name(),
            r->0@.color == fallback_color(),
    {
        proof {
            reveal_strlit("lol");
            reveal_strlit("wahoo");
            assert("lol"@ =~= fallback_name());
            assert("wahoo"@ =~= fallback_color());
        }
        Some(Tag { name: "lol".to_owned(), color: "wahoo".to_owned() })
    }
}

} // verus!
