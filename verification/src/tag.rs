//! Tags: the labels that a note declares in its header.

use vstd::prelude::*;
use vstd::string::StringExecFnsIsAscii;
use vstd::utf8::is_ascii_chars;
use crate::error::ZkError;

verus! {

/// A label on notes.
#[derive(Debug, PartialEq, Eq, PartialOrd, Ord)]
pub struct Tag {
    /// The name, in lower case and ASCII.
    pub name: String,
    pub color: String,
}

/// The name and the colour of a tag.
pub struct TagView {
    pub name: Seq<char>,
    pub color: Seq<char>,
}

impl View for Tag {
    type V = TagView;

    open spec fn view(&self) -> TagView {
        TagView { name: self.name@, color: self.color@ }
    }
}

impl Clone for Tag {
    fn clone(&self) -> (r: Self)
        ensures
            r@ == self@,
    {
        Tag { name: self.name.clone(), color: self.color.clone() }
    }
}

/// A tag as the metadata store holds it.
#[derive(Debug, PartialEq, Eq)]
pub struct StoredTag {
    /// The identifier that the store knows the tag by.
    pub nanoid: String,
    pub name: String,
    pub color: String,
}

/// The three texts of a stored tag.
pub struct StoredTagView {
    pub nanoid: Seq<char>,
    pub name: Seq<char>,
    pub color: Seq<char>,
}

impl View for StoredTag {
    type V = StoredTagView;

    open spec fn view(&self) -> StoredTagView {
        StoredTagView { nanoid: self.nanoid@, name: self.name@, color: self.color@ }
    }
}

impl Clone for StoredTag {
    fn clone(&self) -> (r: Self)
        ensures
            r@ == self@,
    {
        StoredTag {
            nanoid: self.nanoid.clone(),
            name: self.name.clone(),
            color: self.color.clone(),
        }
    }
}

/// The lower-case form of a text, as `str::to_lowercase` gives it.
pub uninterp spec fn lowercase(s: Seq<char>) -> Seq<char>;

/// `str::to_lowercase`: the text with each character replaced by its Unicode
/// lower-case form, a function of the text alone.
pub assume_specification[ str::to_lowercase ](s: &str) -> (r: String)
    ensures
        r@ == lowercase(s@),
;

/// The colour of a tag that is made for a name not seen before.
pub open spec fn default_color() -> Seq<char> {
    seq!['r', 'a', 'n', 'd', 'o', 'm', '!']
}

/// The tag with a name that is already in lower case: the name must be ASCII.
pub open spec fn tag_of(lowered: Seq<char>, color: Seq<char>) -> Result<TagView, ZkError> {
    if is_ascii_chars(lowered) {
        Ok(TagView { name: lowered, color })
    } else {
        Err(ZkError::InvalidTagName)
    }
}

impl Tag {
    /// The tag with the given name, put into lower case, and colour. A name
    /// that is not ASCII once in lower case is refused.
    pub fn new(name: &str, color: &str) -> (r: Result<Tag, ZkError>)
        ensures
            match tag_of(lowercase(name@), color@) {
                Ok(tag) => r is Ok && r->Ok_0@ == tag,
                Err(e) => r is Err && r->Err_0 == e,
            },
    {
        Tag::from_lowered(name.to_lowercase(), color)
    }

    /// The tag with a name that is already in lower case.
    pub fn from_lowered(lowered: String, color: &str) -> (r: Result<Tag, ZkError>)
        ensures
            match tag_of(lowered@, color@) {
                Ok(tag) => r is Ok && r->Ok_0@ == tag,
                Err(e) => r is Err && r->Err_0 == e,
            },
    {
        if !lowered.is_ascii() {
            return Err(ZkError::InvalidTagName);
        }
        Ok(Tag { name: lowered, color: color.to_owned() })
    }

    /// The tag that a record of the store stands for.
    pub fn from_record(record: &StoredTag) -> (r: Tag)
        ensures
            r@.name == record@.name,
            r@.color == record@.color,
    {
        Tag { name: record.name.clone(), color: record.color.clone() }
    }

    /// The tag for a name, given what the store holds under that name: the
    /// stored tag where there is one, else a new tag in the default colour.
    pub fn get_or_new(name: &str, existing: Option<StoredTag>) -> (r: Result<Tag, ZkError>)
        ensures
            match existing {
                Some(record) => r is Ok && r->Ok_0@.name == record@.name && r->Ok_0@.color
                    == record@.color,
                None => match tag_of(lowercase(name@), default_color()) {
                    Ok(tag) => r is Ok && r->Ok_0@ == tag,
                    Err(e) => r is Err && r->Err_0 == e,
                },
            },
    {
        match existing {
            Some(record) => Ok(Tag::from_record(&record)),
            None => {
                proof {
                    reveal_strlit("random!");
                    assert("random!"@ =~= default_color());
                }
                Tag::new(name, "random!")
            },
        }
    }

    /// The name of the tag: the text that stands for it.
    pub fn to_text(&self) -> (s: String)
        ensures
            s@ == self@.name,
    {
        self.name.clone()
    }
}

} // verus!
