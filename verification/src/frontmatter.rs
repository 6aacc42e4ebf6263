//! The header block of a note: five lines that carry its title, the time it
//! was created and its tag names.

use vstd::prelude::*;
use chrono::NaiveDateTime;
use chrono::ParseError;
use crate::error::{HeaderFault, ZkError};
use crate::text::{
    append_chars, char_is_whitespace, chars_of, copy_range, is_whitespace, join, join_lines, lines,
    lines_from, same_chars, split_lines, split_words, string_of, string_views, strip_cr,
    strip_prefix, trim, trim_end, trim_start, trimmed, views, words, words_from,
};

verus! {

#[verifier::external_type_specification]
#[verifier::external_body]
pub struct ExNaiveDateTime(NaiveDateTime);

#[verifier::external_type_specification]
#[verifier::external_body]
pub struct ExParseError(ParseError);

/// `NaiveDateTime` is `Copy`: its `clone` hands back the same timestamp.
pub assume_specification[ <NaiveDateTime as Clone>::clone ](t: &NaiveDateTime) -> (r: NaiveDateTime)
    ensures
        r == *t,
;

/// The format in which a header holds its timestamp: a twelve-hour clock with
/// the half of the day after it.
pub const DATE_FORMAT: &'static str = "%Y-%m-%d %I:%M:%S %p";

/// The timestamp that chrono reads from `text` under `format`, if it reads one.
pub uninterp spec fn parsed_timestamp(text: Seq<char>, format: Seq<char>) -> Option<NaiveDateTime>;

/// The text that chrono writes for a timestamp under `format`.
pub uninterp spec fn timestamp_text(t: NaiveDateTime, format: Seq<char>) -> Seq<char>;

/// `chrono::NaiveDateTime::parse_from_str`: the timestamp that `text` holds
/// under `format`, or chrono's error. The result is a function of the two texts.
#[verifier::external_body]
fn parse_timestamp(text: &str, format: &str) -> (r: Result<NaiveDateTime, ParseError>)
    ensures
        r is Ok <==> parsed_timestamp(text@, format@) is Some,
        r is Ok ==> Some(r->Ok_0) == parsed_timestamp(text@, format@),
{
    NaiveDateTime::parse_from_str(text, format)
}

/// `chrono::NaiveDateTime::format`, written out: the text of a timestamp under
/// `format`. Writing fails on a format that chrono does not know, so only the
/// header's own format is admitted.
#[verifier::external_body]
fn format_timestamp(t: &NaiveDateTime, format: &str) -> (s: String)
    requires
        format@ == DATE_FORMAT@,
    ensures
        s@ == timestamp_text(*t, format@),
{
    t.format(format).to_string()
}

/// The header of a note.
#[derive(Debug, PartialEq, Eq, PartialOrd, Ord)]
pub struct FrontMatter {
    pub title: String,
    pub created_at: NaiveDateTime,
    pub tag_strings: Vec<String>,
}

/// What a header holds, as mathematical values.
pub struct FrontMatterView {
    pub title: Seq<char>,
    pub created_at: NaiveDateTime,
    pub tag_strings: Seq<Seq<char>>,
}

impl View for FrontMatter {
    type V = FrontMatterView;

    open spec fn view(&self) -> FrontMatterView {
        FrontMatterView {
            title: self.title@,
            created_at: self.created_at,
            tag_strings: string_views(self.tag_strings@),
        }
    }
}

impl Clone for FrontMatter {
    fn clone(&self) -> (r: Self)
        ensures
            r@ == self@,
    {
        let mut tags: Vec<String> = Vec::new();
        let mut i: usize = 0;
        while i < self.tag_strings.len()
            invariant
                i <= self.tag_strings.len(),
                tags.len() == i,
                forall|j: int| 0 <= j < i ==> (#[trigger] tags@[j])@ == self.tag_strings@[j]@,
            decreases self.tag_strings.len() - i,
        {
            tags.push(self.tag_strings[i].clone());
            i += 1;
        }
        assert(string_views(tags@) =~= string_views(self.tag_strings@));
        FrontMatter { title: self.title.clone(), created_at: self.created_at, tag_strings: tags }
    }
}

/// The line that opens and closes a header.
pub open spec fn delimiter() -> Seq<char> {
    seq!['-', '-', '-']
}

/// The label of the title line.
pub open spec fn title_label() -> Seq<char> {
    seq!['T', 'i', 't', 'l', 'e', ':', ' ']
}

/// The label of the date line.
pub open spec fn date_label() -> Seq<char> {
    seq!['D', 'a', 't', 'e', ':', ' ']
}

/// The label of the tag line.
pub open spec fn tags_label() -> Seq<char> {
    seq!['T', 'a', 'g', 's', ':', ' ']
}

/// The first three lines of a header, read, and the lines after them.
pub struct HeaderLines {
    /// What follows the label on the title line.
    pub title: String,
    /// What follows the label on the date line.
    pub date_text: String,
    /// The lines after the date line.
    pub tail: Vec<Vec<char>>,
}

/// What [`HeaderLines`] holds, as mathematical values.
pub struct HeaderLinesView {
    pub title: Seq<char>,
    pub date_text: Seq<char>,
    pub tail: Seq<Seq<char>>,
}

impl View for HeaderLines {
    type V = HeaderLinesView;

    open spec fn view(&self) -> HeaderLinesView {
        HeaderLinesView {
            title: self.title@,
            date_text: self.date_text@,
            tail: views(self.tail@),
        }
    }
}

/// What reading the first three lines of a text gives: the title, the text of
/// the date and the lines that follow, or the first fault met.
pub open spec fn scan_header(text: Seq<char>) -> Result<HeaderLinesView, HeaderFault> {
    let ls = lines(text);
    if ls.len() < 1 {
        Err(HeaderFault::MissingOpening)
    } else if trim(ls[0]) != delimiter() {
        Err(HeaderFault::CorruptOpening)
    } else if ls.len() < 2 {
        Err(HeaderFault::MissingTitle)
    } else if !title_label().is_prefix_of(ls[1]) {
        Err(HeaderFault::CorruptTitle)
    } else if ls.len() < 3 {
        Err(HeaderFault::MissingDate)
    } else if !date_label().is_prefix_of(ls[2]) {
        Err(HeaderFault::CorruptDate)
    } else {
        Ok(
            HeaderLinesView {
                title: ls[1].skip(title_label().len() as int),
                date_text: ls[2].skip(date_label().len() as int),
                tail: ls.skip(3),
            },
        )
    }
}

/// What the rest of a header gives once its date has been read: the header
/// and the text after it, or the first fault met.
pub open spec fn finish_header(head: HeaderLinesView, created_at: Option<NaiveDateTime>) -> Result<
    (FrontMatterView, Seq<char>),
    HeaderFault,
> {
    if created_at is None {
        Err(HeaderFault::BadTimestamp)
    } else if head.tail.len() < 1 {
        Err(HeaderFault::MissingTags)
    } else if !tags_label().is_prefix_of(head.tail[0]) {
        Err(HeaderFault::CorruptTags)
    } else if head.tail.len() < 2 {
        Err(HeaderFault::MissingClosing)
    } else if trim(head.tail[1]) != delimiter() {
        Err(HeaderFault::CorruptClosing)
    } else {
        Ok(
            (
                FrontMatterView {
                    title: head.title,
                    created_at: created_at->0,
                    tag_strings: words(head.tail[0].skip(tags_label().len() as int)),
                },
                join(head.tail.skip(2), seq!['\n']),
            ),
        )
    }
}

/// What reading a header from a text gives: the header and the text after it,
/// or the first fault met on the way down the five lines.
pub open spec fn parse_header(text: Seq<char>) -> Result<(FrontMatterView, Seq<char>), HeaderFault> {
    match scan_header(text) {
        Err(fault) => Err(fault),
        Ok(head) => finish_header(head, parsed_timestamp(head.date_text, DATE_FORMAT@)),
    }
}

/// A line followed by a line feed and the rest of a text.
pub open spec fn line_then(line: Seq<char>, rest: Seq<char>) -> Seq<char> {
    line + seq!['\n'] + rest
}

/// The tag names, each followed by one space.
pub open spec fn tag_list(tags: Seq<Seq<char>>) -> Seq<char>
    decreases tags.len(),
{
    if tags.len() == 0 {
        seq![]
    } else {
        tags[0] + seq![' '] + tag_list(tags.drop_first())
    }
}

/// The text of a header: its five lines, each ended by a line feed.
pub open spec fn header_text(h: FrontMatterView) -> Seq<char> {
    line_then(
        delimiter(),
        line_then(
            title_label() + h.title,
            line_then(
                date_label() + timestamp_text(h.created_at, DATE_FORMAT@),
                line_then(
                    tags_label() + tag_list(h.tag_strings),
                    line_then(delimiter(), seq![]),
                ),
            ),
        ),
    )
}

/// Whether a text can stand on one line of a header and be read back as it is:
/// it holds no line feed and does not end in a carriage return.
pub open spec fn fits_one_line(s: Seq<char>) -> bool {
    &&& !s.contains('\n')
    &&& (s.len() > 0 ==> s.last() != '\r')
}

/// Whether a text is a tag name that the tag line can hold: not empty and
/// without whitespace.
pub open spec fn is_tag_name(s: Seq<char>) -> bool {
    &&& s.len() > 0
    &&& forall|i: int| 0 <= i < s.len() ==> !is_whitespace(#[trigger] s[i])
}

/// Whether chrono reads the text of a timestamp back as a timestamp with the
/// same text, and that text can stand on one line.
pub open spec fn timestamp_reads_back(t: NaiveDateTime) -> bool {
    let text = timestamp_text(t, DATE_FORMAT@);
    &&& fits_one_line(text)
    &&& parsed_timestamp(text, DATE_FORMAT@) is Some
    &&& timestamp_text(parsed_timestamp(text, DATE_FORMAT@)->0, DATE_FORMAT@) == text
}

/// Whether a header is one that the codec itself can have produced and can
/// read again: the title stands on one line, every tag is a tag name, and the
/// timestamp reads back.
pub open spec fn is_valid_header(h: FrontMatterView) -> bool {
    &&& fits_one_line(h.title)
    &&& forall|i: int| 0 <= i < h.tag_strings.len() ==> is_tag_name(#[trigger] h.tag_strings[i])
    &&& timestamp_reads_back(h.created_at)
}

/// The texts that a vector of string slices holds.
pub open spec fn str_views(v: Seq<&str>) -> Seq<Seq<char>> {
    Seq::new(v.len(), |i: int| v[i]@)
}

/// One string for each character vector, with the same text.
fn strings_of(parts: &Vec<Vec<char>>) -> (r: Vec<String>)
    ensures
        string_views(r@) == views(parts@),
{
    let mut out: Vec<String> = Vec::new();
    let mut i: usize = 0;
    while i < parts.len()
        invariant
            i <= parts.len(),
            out.len() == i,
            forall|j: int| 0 <= j < i ==> (#[trigger] out@[j])@ == parts@[j]@,
        decreases parts.len() - i,
    {
        out.push(string_of(&parts[i]));
        i += 1;
    }
    assert(string_views(out@) =~= views(parts@));
    out
}

impl FrontMatter {
    /// A header with the given title, creation time and tag names.
    pub fn new(title: &str, created_at: NaiveDateTime, tag_strings: Vec<&str>) -> (r: FrontMatter)
        ensures
            r@.title == title@,
            r@.created_at == created_at,
            r@.tag_strings == str_views(tag_strings@),
    {
        let mut tags: Vec<String> = Vec::new();
        let mut i: usize = 0;
        while i < tag_strings.len()
            invariant
                i <= tag_strings.len(),
                tags.len() == i,
                forall|j: int| 0 <= j < i ==> (#[trigger] tags@[j])@ == tag_strings@[j]@,
            decreases tag_strings.len() - i,
        {
            tags.push(tag_strings[i].to_owned());
            i += 1;
        }
        assert(string_views(tags@) =~= str_views(tag_strings@));
        FrontMatter { title: title.to_owned(), created_at, tag_strings: tags }
    }

    /// Reads the first three lines of a header: the delimiter, the title and
    /// the date, whose text is handed back unread.
    pub fn scan(string: &str) -> (r: Result<HeaderLines, ZkError>)
        ensures
            match scan_header(string@) {
                Ok(head) => r is Ok && r->Ok_0@ == head,
                Err(fault) => r is Err && r->Err_0 == ZkError::MalformedHeader(fault),
            },
    {
        let chars = chars_of(string);
        let ls = split_lines(&chars);
        let delim = chars_of("---");
        let title_prefix = chars_of("Title: ");
        let date_prefix = chars_of("Date: ");
        proof {
            reveal_strlit("---");
            reveal_strlit("Title: ");
            reveal_strlit("Date: ");
            assert(delim@ =~= delimiter());
            assert(title_prefix@ =~= title_label());
            assert(date_prefix@ =~= date_label());
        }
        if ls.len() < 1 {
            return Err(ZkError::MalformedHeader(HeaderFault::MissingOpening));
        }
        let opening = trimmed(&ls[0]);
        if !same_chars(&opening, &delim) {
            return Err(ZkError::MalformedHeader(HeaderFault::CorruptOpening));
        }
        if ls.len() < 2 {
            return Err(ZkError::MalformedHeader(HeaderFault::MissingTitle));
        }
        let title = match strip_prefix(&ls[1], &title_prefix) {
            Some(rest) => string_of(&rest),
            None => {
                return Err(ZkError::MalformedHeader(HeaderFault::CorruptTitle));
            },
        };
        if ls.len() < 3 {
            return Err(ZkError::MalformedHeader(HeaderFault::MissingDate));
        }
        let date_text = match strip_prefix(&ls[2], &date_prefix) {
            Some(rest) => string_of(&rest),
            None => {
                return Err(ZkError::MalformedHeader(HeaderFault::CorruptDate));
            },
        };
        let mut tail: Vec<Vec<char>> = Vec::new();
        let mut i: usize = 3;
        while i < ls.len()
            invariant
                3 <= i <= ls.len(),
                tail.len() == i - 3,
                forall|j: int| 0 <= j < tail.len() ==> (#[trigger] tail@[j])@ == ls@[j + 3]@,
            decreases ls.len() - i,
        {
            tail.push(copy_range(&ls[i], 0, ls[i].len()));
            assert(ls@[i as int]@.subrange(0, ls@[i as int]@.len() as int) =~= ls@[i as int]@);
            i += 1;
        }
        assert(views(tail@) =~= views(ls@).skip(3));
        Ok(HeaderLines { title, date_text, tail })
    }

    /// Reads the rest of a header, given what its date text holds: the tag
    /// line and the closing delimiter. `created_at` is `None` where the date
    /// text holds no timestamp.
    pub fn finish(head: HeaderLines, created_at: Option<NaiveDateTime>) -> (r: Result<
        (FrontMatter, String),
        ZkError,
    >)
        ensures
            match finish_header(head@, created_at) {
                Ok(parsed) => r is Ok && r->Ok_0.0@ == parsed.0 && r->Ok_0.1@ == parsed.1,
                Err(fault) => r is Err && r->Err_0 == ZkError::MalformedHeader(fault),
            },
    {
        let delim = chars_of("---");
        let tags_prefix = chars_of("Tags: ");
        proof {
            reveal_strlit("---");
            reveal_strlit("Tags: ");
            assert(delim@ =~= delimiter());
            assert(tags_prefix@ =~= tags_label());
        }
        let created_at = match created_at {
            Some(t) => t,
            None => {
                return Err(ZkError::MalformedHeader(HeaderFault::BadTimestamp));
            },
        };
        if head.tail.len() < 1 {
            return Err(ZkError::MalformedHeader(HeaderFault::MissingTags));
        }
        let tag_strings = match strip_prefix(&head.tail[0], &tags_prefix) {
            Some(rest) => strings_of(&split_words(&rest)),
            None => {
                return Err(ZkError::MalformedHeader(HeaderFault::CorruptTags));
            },
        };
        if head.tail.len() < 2 {
            return Err(ZkError::MalformedHeader(HeaderFault::MissingClosing));
        }
        let closing = trimmed(&head.tail[1]);
        if !same_chars(&closing, &delim) {
            return Err(ZkError::MalformedHeader(HeaderFault::CorruptClosing));
        }
        let remaining = string_of(&join_lines(&head.tail, 2));
        Ok((FrontMatter { title: head.title, created_at, tag_strings }, remaining))
    }

    /// Reads the header that a text begins with, and hands it back with the
    /// text after it. The header is five lines: the delimiter, the title, the
    /// date, the tags, the delimiter. Any other shape is refused, with the
    /// first fault met.
    ///
    /// ```text
    /// ---
    /// Title: LOL
    /// Date: 2025-01-01 12:50:19 AM
    /// Tags: daily barber
    /// ---
    /// ```
    pub fn extract_from_str(string: &str) -> (r: Result<(FrontMatter, String), ZkError>)
        ensures
            match parse_header(string@) {
                Ok(parsed) => r is Ok && r->Ok_0.0@ == parsed.0 && r->Ok_0.1@ == parsed.1,
                Err(fault) => r is Err && r->Err_0 == ZkError::MalformedHeader(fault),
            },
    {
        match FrontMatter::scan(string) {
            Err(e) => Err(e),
            Ok(head) => {
                let created_at = match parse_timestamp(head.date_text.as_str(), DATE_FORMAT) {
                    Ok(t) => Some(t),
                    Err(_) => None,
                };
                FrontMatter::finish(head, created_at)
            },
        }
    }

    /// As [`FrontMatter::extract_from_str`], for the contents of the file at
    /// `path`: a fault is reported together with that path.
    pub fn extract_from_file(path: &str, contents: &str) -> (r: Result<
        (FrontMatter, String),
        ZkError,
    >)
        ensures
            match parse_header(contents@) {
                Ok(parsed) => r is Ok && r->Ok_0.0@ == parsed.0 && r->Ok_0.1@ == parsed.1,
                Err(fault) => r is Err && (r->Err_0 matches ZkError::MalformedNote(at, why)
                    && at@ == path@ && why == fault),
            },
    {
        match FrontMatter::extract_from_str(contents) {
            Ok(found) => Ok(found),
            Err(ZkError::MalformedHeader(fault)) => Err(
                ZkError::MalformedNote(path.to_owned(), fault),
            ),
            Err(other) => Err(other),
        }
    }

    /// The text of the header: what [`FrontMatter::extract_from_str`] reads.
    pub fn render(&self) -> (s: String)
        ensures
            s@ == header_text(self@),
    {
        let stamp = format_timestamp(&self.created_at, DATE_FORMAT);
        let mut tags: Vec<char> = Vec::new();
        let mut i: usize = self.tag_strings.len();
        assert(string_views(self.tag_strings@).skip(i as int) =~= Seq::<Seq<char>>::empty());
        while i > 0
            invariant
                i <= self.tag_strings.len(),
                tags@ == tag_list(string_views(self.tag_strings@).skip(i as int)),
            decreases i,
        {
            i -= 1;
            let ghost rest = string_views(self.tag_strings@).skip(i as int);
            assert(rest.drop_first() =~= string_views(self.tag_strings@).skip(i as int + 1));
            let mut word = chars_of(self.tag_strings[i].as_str());
            word.push(' ');
            append_chars(&mut word, &tags);
            tags = word;
            assert(tags@ =~= rest[0] + seq![' '] + tag_list(rest.drop_first()));
        }
        assert(string_views(self.tag_strings@).skip(0) =~= string_views(self.tag_strings@));
        let mut out = chars_of("---\nTitle: ");
        append_chars(&mut out, &chars_of(self.title.as_str()));
        append_chars(&mut out, &chars_of("\nDate: "));
        append_chars(&mut out, &chars_of(stamp.as_str()));
        append_chars(&mut out, &chars_of("\nTags: "));
        append_chars(&mut out, &tags);
        append_chars(&mut out, &chars_of("\n---\n"));
        proof {
            reveal_strlit("---\nTitle: ");
            reveal_strlit("\nDate: ");
            reveal_strlit("\nTags: ");
            reveal_strlit("\n---\n");
            assert("---\nTitle: "@ =~= delimiter() + seq!['\n'] + title_label());
            assert("\nDate: "@ =~= seq!['\n'] + date_label());
            assert("\nTags: "@ =~= seq!['\n'] + tags_label());
            assert("\n---\n"@ =~= seq!['\n'] + delimiter() + seq!['\n']);
            assert(out@ =~= header_text(self@));
        }
        string_of(&out)
    }
}

/// Whether a text can stand on one line of a header and be read back.
pub fn one_line(v: &Vec<char>) -> (r: bool)
    ensures
        r == fits_one_line(v@),
{
    let mut i: usize = 0;
    while i < v.len()
        invariant
            i <= v.len(),
            forall|k: int| 0 <= k < i ==> v@[k] != '\n',
        decreases v.len() - i,
    {
        if v[i] == '\n' {
            assert(v@.contains('\n'));
            return false;
        }
        i += 1;
    }
    v.len() == 0 || v[v.len() - 1] != '\r'
}

/// Whether a text is a tag name that the tag line can hold.
pub fn tag_name_ok(v: &Vec<char>) -> (r: bool)
    ensures
        r == is_tag_name(v@),
{
    if v.len() == 0 {
        return false;
    }
    let mut i: usize = 0;
    while i < v.len()
        invariant
            i <= v.len(),
            forall|k: int| 0 <= k < i ==> !is_whitespace(#[trigger] v@[k]),
        decreases v.len() - i,
    {
        if char_is_whitespace(v[i]) {
            return false;
        }
        i += 1;
    }
    true
}

impl FrontMatter {
    /// Whether the header is one that the codec can read back from its own
    /// text: see [`is_valid_header`]. Where it is, reading the text of the
    /// header gives a header with that same text.
    pub fn is_valid(&self) -> (r: bool)
        ensures
            r == is_valid_header(self@),
            r ==> parse_header(header_text(self@)) is Ok && header_text(
                parse_header(header_text(self@))->Ok_0.0,
            ) == header_text(self@),
    {
        if !one_line(&chars_of(self.title.as_str())) {
            return false;
        }
        let mut i: usize = 0;
        while i < self.tag_strings.len()
            invariant
                i <= self.tag_strings.len(),
                forall|k: int| 0 <= k < i ==> is_tag_name(#[trigger] self@.tag_strings[k]),
            decreases self.tag_strings.len() - i,
        {
            if !tag_name_ok(&chars_of(self.tag_strings[i].as_str())) {
                assert(!is_tag_name(self@.tag_strings[i as int]));
                return false;
            }
            i += 1;
        }
        let text = format_timestamp(&self.created_at, DATE_FORMAT);
        if !one_line(&chars_of(text.as_str())) {
            return false;
        }
        match parse_timestamp(text.as_str(), DATE_FORMAT) {
            Err(_) => false,
            Ok(back) => {
                let again = format_timestamp(&back, DATE_FORMAT);
                if again == text {
                    proof {
                        lemma_render_round_trip(self@);
                    }
                    true
                } else {
                    false
                }
            },
        }
    }
}

/// Reading a line and what follows it: the line comes first, without a
/// trailing carriage return, then the lines of the rest.
pub proof fn lemma_lines_line_then(line: Seq<char>, rest: Seq<char>, cur: Seq<char>)
    requires
        !line.contains('\n'),
    ensures
        lines_from(line_then(line, rest), cur) == seq![strip_cr(cur + line)] + lines(rest),
    decreases line.len(),
{
    let text = line_then(line, rest);
    if line.len() == 0 {
        assert(text.drop_first() =~= rest);
        assert(cur + line =~= cur);
    } else {
        assert(line.contains(line[0]));
        assert(text[0] == line[0]);
        assert(text.drop_first() =~= line_then(line.drop_first(), rest));
        assert forall|c: char| line.drop_first().contains(c) implies line.contains(c) by {
            let i = choose|i: int| 0 <= i < line.drop_first().len() && line.drop_first()[i] == c;
            assert(line[i + 1] == c);
        }
        lemma_lines_line_then(line.drop_first(), rest, cur.push(line[0]));
        assert(cur.push(line[0]) + line.drop_first() =~= cur + line);
    }
}

/// Reading a word, a space and what follows: the word comes first, then the
/// words of the rest.
pub proof fn lemma_words_word_then(word: Seq<char>, rest: Seq<char>, cur: Seq<char>)
    requires
        forall|i: int| 0 <= i < word.len() ==> !is_whitespace(#[trigger] word[i]),
        cur.len() + word.len() > 0,
    ensures
        words_from(word + seq![' '] + rest, cur) == seq![cur + word] + words(rest),
    decreases word.len(),
{
    let text = word + seq![' '] + rest;
    if word.len() == 0 {
        assert(text[0] == ' ');
        assert(text.drop_first() =~= rest);
        assert(cur + word =~= cur);
    } else {
        assert(text[0] == word[0]);
        assert(text.drop_first() =~= word.drop_first() + seq![' '] + rest);
        lemma_words_word_then(word.drop_first(), rest, cur.push(word[0]));
        assert(cur.push(word[0]) + word.drop_first() =~= cur + word);
    }
}

/// The tag line reads back as the tag names that were written on it.
pub proof fn lemma_words_of_tag_list(tags: Seq<Seq<char>>)
    requires
        forall|i: int| 0 <= i < tags.len() ==> is_tag_name(#[trigger] tags[i]),
    ensures
        words(tag_list(tags)) == tags,
        !tag_list(tags).contains('\n'),
        tag_list(tags).len() > 0 ==> tag_list(tags).last() == ' ',
    decreases tags.len(),
{
    if tags.len() == 0 {
        assert(words(tag_list(tags)) =~= tags);
    } else {
        let first = tags[0];
        let rest = tags.drop_first();
        assert(is_tag_name(first));
        assert forall|i: int| 0 <= i < rest.len() implies is_tag_name(#[trigger] rest[i]) by {
            assert(rest[i] == tags[i + 1]);
        }
        lemma_words_of_tag_list(rest);
        lemma_words_word_then(first, tag_list(rest), seq![]);
        assert(Seq::<char>::empty() + first =~= first);
        assert(seq![first] + rest =~= tags);
        let text = tag_list(tags);
        assert forall|i: int| 0 <= i < text.len() implies text[i] != '\n' by {
            if i < first.len() {
                assert(text[i] == first[i]);
                assert(is_whitespace('\n'));
            } else if i == first.len() {
                assert(text[i] == ' ');
            } else {
                assert(text[i] == tag_list(rest)[i - first.len() - 1]);
                assert(tag_list(rest).contains(text[i]));
            }
        }
        if tag_list(rest).len() > 0 {
            assert(text.last() == tag_list(rest).last());
        } else {
            assert(text.last() == ' ');
        }
    }
}

/// A header that the codec can have produced reads back from its own text:
/// reading the text succeeds, leaves nothing over, finds the same title and
/// tag names, and the header found renders to the same text again.
pub proof fn lemma_render_round_trip(h: FrontMatterView)
    requires
        is_valid_header(h),
    ensures
        parse_header(header_text(h)) is Ok,
        parse_header(header_text(h))->Ok_0.0.title == h.title,
        parse_header(header_text(h))->Ok_0.0.tag_strings == h.tag_strings,
        parse_header(header_text(h))->Ok_0.1 == Seq::<char>::empty(),
        header_text(parse_header(header_text(h))->Ok_0.0) == header_text(h),
{
    let stamp = timestamp_text(h.created_at, DATE_FORMAT@);
    let l0 = delimiter();
    let l1 = title_label() + h.title;
    let l2 = date_label() + stamp;
    let l3 = tags_label() + tag_list(h.tag_strings);
    let r4 = line_then(l0, seq![]);
    let r3 = line_then(l3, r4);
    let r2 = line_then(l2, r3);
    let r1 = line_then(l1, r2);
    lemma_words_of_tag_list(h.tag_strings);
    assert(!l0.contains('\n'));
    assert(!l1.contains('\n')) by {
        if l1.contains('\n') {
            let i = choose|i: int| 0 <= i < l1.len() && l1[i] == '\n';
            if i >= title_label().len() {
                assert(h.title[i - title_label().len()] == '\n');
                assert(h.title.contains('\n'));
            }
        }
    }
    assert(!l2.contains('\n')) by {
        if l2.contains('\n') {
            let i = choose|i: int| 0 <= i < l2.len() && l2[i] == '\n';
            if i >= date_label().len() {
                assert(stamp[i - date_label().len()] == '\n');
                assert(stamp.contains('\n'));
            }
        }
    }
    assert(!l3.contains('\n')) by {
        if l3.contains('\n') {
            let i = choose|i: int| 0 <= i < l3.len() && l3[i] == '\n';
            if i >= tags_label().len() {
                assert(tag_list(h.tag_strings)[i - tags_label().len()] == '\n');
                assert(tag_list(h.tag_strings).contains('\n'));
            }
        }
    }
    lemma_lines_line_then(l0, r1, seq![]);
    lemma_lines_line_then(l1, r2, seq![]);
    lemma_lines_line_then(l2, r3, seq![]);
    lemma_lines_line_then(l3, r4, seq![]);
    lemma_lines_line_then(l0, seq![], seq![]);
    assert(Seq::<char>::empty() + l0 =~= l0);
    assert(Seq::<char>::empty() + l1 =~= l1);
    assert(Seq::<char>::empty() + l2 =~= l2);
    assert(Seq::<char>::empty() + l3 =~= l3);
    assert(strip_cr(l0) == l0);
    assert(strip_cr(l1) == l1) by {
        if h.title.len() > 0 {
            assert(l1.last() == h.title.last());
        } else {
            assert(l1.last() == ' ');
        }
    }
    assert(strip_cr(l2) == l2) by {
        if stamp.len() > 0 {
            assert(l2.last() == stamp.last());
        } else {
            assert(l2.last() == ' ');
        }
    }
    assert(strip_cr(l3) == l3) by {
        if tag_list(h.tag_strings).len() > 0 {
            assert(l3.last() == tag_list(h.tag_strings).last());
        } else {
            assert(l3.last() == ' ');
        }
    }
    assert(lines(Seq::<char>::empty()) =~= Seq::<Seq<char>>::empty());
    let ls = lines(header_text(h));
    assert(ls =~= seq![l0, l1, l2, l3, l0]);
    assert(trim(l0) == l0) by {
        assert(!is_whitespace('-'));
        assert(trim_start(l0) == l0);
        assert(trim_end(l0) == l0);
    }
    assert(l1.skip(title_label().len() as int) =~= h.title);
    assert(l2.skip(date_label().len() as int) =~= stamp);
    assert(l3.skip(tags_label().len() as int) =~= tag_list(h.tag_strings));
    assert(title_label().is_prefix_of(l1));
    assert(date_label().is_prefix_of(l2));
    assert(tags_label().is_prefix_of(l3));
    let tail = ls.skip(3);
    assert(tail =~= seq![l3, l0]);
    assert(tail.skip(2) =~= Seq::<Seq<char>>::empty());
    assert(join(tail.skip(2), seq!['\n']) =~= Seq::<char>::empty());
}

} // verus!
