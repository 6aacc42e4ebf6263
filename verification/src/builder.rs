//! Making a new note.

use vstd::prelude::*;
use chrono::NaiveDateTime;
use crate::frontmatter::{header_text, FrontMatter, FrontMatterView};
use crate::id::{is_generated_id, note_extension, ZettelId};
use crate::resolver::{join_path, joined};
use crate::tag::{Tag, TagView};
use crate::text::{append_chars, chars_of, string_of};
use crate::zettel::{tag_views, Zettel, ZettelView};

verus! {

/// A note in the making.
pub struct ZettelBuilder {
    inner: Zettel,
}

/// A note that has been made, with the text of its file.
pub struct Built {
    pub zettel: Zettel,
    /// What the file of the note is to hold: the header, a line feed, the
    /// body and a line feed.
    pub file_text: String,
}

/// What a new note is recorded under in the metadata store.
pub struct NewZettel {
    pub nanoid: String,
    pub title: String,
}

impl View for ZettelBuilder {
    type V = ZettelView;

    closed spec fn view(&self) -> ZettelView {
        self.inner@
    }
}

impl Zettel {
    /// The text of the note as its file holds it: the header, then the body.
    pub fn to_text(&self) -> (s: String)
        ensures
            s@ == header_text(self@.front_matter) + self@.content,
    {
        let mut out = chars_of(self.front_matter.render().as_str());
        append_chars(&mut out, &chars_of(self.content.as_str()));
        string_of(&out)
    }

    /// What the note is recorded under in the metadata store.
    pub fn active_model(&self) -> (r: NewZettel)
        ensures
            r.nanoid@ == self@.id,
            r.title@ == self@.front_matter.title,
    {
        NewZettel { nanoid: self.id.as_str().to_owned(), title: self.front_matter.title.clone() }
    }
}

impl ZettelBuilder {
    /// A new note for the collection at `root`, under a fresh identifier:
    /// without title, tags, links and body, in the file that the identifier
    /// names.
    pub fn new(root: &str, now: NaiveDateTime) -> (r: ZettelBuilder)
        ensures
            is_generated_id(r@.id),
            r@.path == joined(root@, r@.id + note_extension()),
            r@.front_matter == (FrontMatterView {
                title: Seq::<char>::empty(),
                created_at: now,
                tag_strings: Seq::<Seq<char>>::empty(),
            }),
            r@.tags == Seq::<TagView>::empty(),
            r@.links.len() == 0,
            r@.content == Seq::<char>::empty(),
    {
        let id = ZettelId::generate();
        let mut file = chars_of(id.as_str());
        let extension = chars_of(".md");
        proof {
            reveal_strlit(".md");
            assert(extension@ =~= note_extension());
        }
        append_chars(&mut file, &extension);
        let path = join_path(root, &file);
        let front_matter = FrontMatter::new("", now, Vec::new());
        let inner = Zettel::new(id, path, front_matter, Vec::new(), String::new());
        proof {
            reveal_strlit("");
            assert(inner@.front_matter.title =~= Seq::<char>::empty());
            assert(inner@.front_matter.tag_strings =~= Seq::<Seq<char>>::empty());
            assert(inner@.tags =~= Seq::<TagView>::empty());
        }
        ZettelBuilder { inner }
    }

    /// Gives the note a title.
    pub fn name(&mut self, name: &str)
        ensures
            final(self)@ == (ZettelView {
                front_matter: FrontMatterView { title: name@, ..old(self)@.front_matter },
                ..old(self)@
            }),
    {
        self.inner.front_matter.title = name.to_owned();
    }

    /// Gives the note one more tag.
    pub fn add_tag(&mut self, tag: Tag)
        ensures
            final(self)@ == (ZettelView { tags: old(self)@.tags.push(tag@), ..old(self)@ }),
    {
        self.inner.tags.push(tag);
        assert(tag_views(self.inner.tags@) =~= tag_views(old(self).inner.tags@).push(tag@));
    }

    /// Gives the note a body.
    pub fn content(&mut self, content: &str)
        ensures
            final(self)@ == (ZettelView { content: content@, ..old(self)@ }),
    {
        self.inner.content = content.to_owned();
    }

    /// The builder with the title set.
    pub fn with_title(self, name: &str) -> (r: ZettelBuilder)
        ensures
            r@ == (ZettelView {
                front_matter: FrontMatterView { title: name@, ..self@.front_matter },
                ..self@
            }),
    {
        let mut next = self;
        next.name(name);
        next
    }

    /// The builder with the title set.
    pub fn with_name(self, name: &str) -> (r: ZettelBuilder)
        ensures
            r@ == (ZettelView {
                front_matter: FrontMatterView { title: name@, ..self@.front_matter },
                ..self@
            }),
    {
        self.with_title(name)
    }

    /// The builder with one more tag.
    pub fn with_additional_tag(self, tag: Tag) -> (r: ZettelBuilder)
        ensures
            r@ == (ZettelView { tags: self@.tags.push(tag@), ..self@ }),
    {
        let mut next = self;
        next.add_tag(tag);
        next
    }

    /// The builder with the body set.
    pub fn with_content(self, content: &str) -> (r: ZettelBuilder)
        ensures
            r@ == (ZettelView { content: content@, ..self@ }),
    {
        let mut next = self;
        next.content(content);
        next
    }

    /// The note, created at `now`, and the text of its file.
    pub fn build(self, now: NaiveDateTime) -> (r: Built)
        ensures
            r.zettel@ == (ZettelView {
                front_matter: FrontMatterView { created_at: now, ..self@.front_matter },
                ..self@
            }),
            r.file_text@ == header_text(r.zettel@.front_matter) + seq!['\n'] + r.zettel@.content
                + seq!['\n'],
    {
        let mut zettel = self.inner;
        zettel.front_matter.created_at = now;
        let mut out = chars_of(zettel.front_matter.render().as_str());
        out.push('\n');
        append_chars(&mut out, &chars_of(zettel.content.as_str()));
        out.push('\n');
        let file_text = string_of(&out);
        Built { zettel, file_text }
    }
}

} // verus!
