//! Link resolution: from the body of a note to the links that it makes.
//! The body is scanned for link destinations; each becomes the path of a
//! candidate file under the collection root; the candidates that the file
//! system knows become links.

use vstd::prelude::*;
use pulldown_cmark::{Event, Parser, Tag as MarkTag};
use crate::error::{IdFault, ZkError};
use crate::id::{id_of_path, note_extension, ZettelId};
use crate::link::{Link, LinkView};
use crate::text::{append_chars, chars_of, copy_range, ends_with, string_of, string_views};
use crate::zettel::link_views;

verus! {

/// For each event of a scan of a Markdown text, in order: the destination
/// of the link that the event starts, or `None` where it starts no link.
pub uninterp spec fn link_starts(content: Seq<char>) -> Seq<Option<Seq<char>>>;

/// `pulldown_cmark::Parser::new`, run to its end: for every event the
/// destination of the link that it starts, or `None`. The events are a
/// function of the text alone.
#[verifier::external_body]
fn markdown_link_starts(content: &str) -> (r: Vec<Option<String>>)
    ensures
        option_views(r@) == link_starts(content@),
{
    Parser::new(content).map(
        |event|
            match event {
                Event::Start(MarkTag::Link { dest_url, .. }) => Some(dest_url.to_string()),
                _ => None,
            },
    ).collect()
}

/// The texts among optional texts, in order.
pub open spec fn present(v: Seq<Option<Seq<char>>>) -> Seq<Seq<char>>
    decreases v.len(),
{
    if v.len() == 0 {
        seq![]
    } else {
        match v.last() {
            Some(text) => present(v.drop_last()).push(text),
            None => present(v.drop_last()),
        }
    }
}

/// The destinations of the links that a Markdown text makes, in the order
/// in which a scan of the text meets them.
pub open spec fn link_destinations(content: Seq<char>) -> Seq<Seq<char>> {
    present(link_starts(content))
}

/// The texts among optional texts, in order.
pub fn present_texts(v: &Vec<Option<String>>) -> (r: Vec<String>)
    ensures
        string_views(r@) == present(option_views(v@)),
{
    let ghost all = option_views(v@);
    let mut out: Vec<String> = Vec::new();
    let mut i: usize = 0;
    assert(all.take(0) =~= Seq::<Option<Seq<char>>>::empty());
    assert(string_views(out@) =~= Seq::<Seq<char>>::empty());
    while i < v.len()
        invariant
            i <= v.len(),
            all == option_views(v@),
            string_views(out@) == present(all.take(i as int)),
        decreases v.len() - i,
    {
        let ghost before = string_views(out@);
        proof {
            assert(all.take(i as int + 1).drop_last() =~= all.take(i as int));
            assert(all.take(i as int + 1).last() == all[i as int]);
        }
        match &v[i] {
            Some(text) => {
                out.push(text.clone());
                assert(string_views(out@) =~= before.push(text@));
            },
            None => {},
        }
        i += 1;
    }
    assert(all.take(v.len() as int) =~= all);
    out
}

/// What stands before the first `#` of a text.
pub open spec fn before_anchor(s: Seq<char>) -> Seq<char>
    decreases s.len(),
{
    if s.len() == 0 || s[0] == '#' {
        seq![]
    } else {
        seq![s[0]] + before_anchor(s.drop_first())
    }
}

/// A destination without the `./` that it may begin with.
pub open spec fn without_dot_slash(url: Seq<char>) -> Seq<char> {
    if seq!['.', '/'].is_prefix_of(url) {
        url.skip(2)
    } else {
        url
    }
}

/// The file that a link destination names, relative to the collection root:
/// the destination without a leading `./` and without its anchor, with the
/// note extension unless it ends in it already.
pub open spec fn target_file(url: Seq<char>) -> Seq<char> {
    let bare = before_anchor(without_dot_slash(url));
    if note_extension().is_suffix_of(bare) {
        bare
    } else {
        bare + note_extension()
    }
}

/// A path under `root`. An absolute path stays as it is; a separator is put
/// between the two unless `root` is empty or ends in one.
pub open spec fn joined(root: Seq<char>, rel: Seq<char>) -> Seq<char> {
    if rel.len() > 0 && rel[0] == '/' {
        rel
    } else if root.len() == 0 || root.last() == '/' {
        root + rel
    } else {
        root + seq!['/'] + rel
    }
}

/// The candidate path of each destination.
pub open spec fn candidates(root: Seq<char>, destinations: Seq<Seq<char>>) -> Seq<Seq<char>> {
    Seq::new(destinations.len(), |i: int| joined(root, target_file(destinations[i])))
}

/// The texts that a vector of optional strings holds.
pub open spec fn option_views(v: Seq<Option<String>>) -> Seq<Option<Seq<char>>> {
    Seq::new(
        v.len(),
        |i: int|
            match v[i] {
                Some(s) => Some(s@),
                None => None,
            },
    )
}

/// The links from `source` that the canonical paths of its candidates give.
/// A candidate without a canonical path is a broken link and gives none. A
/// canonical path that names no note is a fault, and the first such fault is
/// the result.
pub open spec fn resolved(source: Seq<char>, canonical: Seq<Option<Seq<char>>>) -> Result<
    Seq<LinkView>,
    IdFault,
>
    decreases canonical.len(),
{
    if canonical.len() == 0 {
        Ok(seq![])
    } else {
        match resolved(source, canonical.drop_last()) {
            Err(fault) => Err(fault),
            Ok(links) => match canonical.last() {
                None => Ok(links),
                Some(path) => match id_of_path(path) {
                    Ok(dest) => Ok(links.push(LinkView { source, dest })),
                    Err(fault) => Err(fault),
                },
            },
        }
    }
}

/// Every resolved link starts at the source.
pub proof fn lemma_resolved_from_source(source: Seq<char>, canonical: Seq<Option<Seq<char>>>)
    ensures
        resolved(source, canonical) is Ok ==> forall|i: int|
            0 <= i < resolved(source, canonical)->Ok_0.len() ==> (#[trigger] resolved(
                source,
                canonical,
            )->Ok_0[i]).source == source,
    decreases canonical.len(),
{
    if canonical.len() > 0 {
        lemma_resolved_from_source(source, canonical.drop_last());
    }
}

/// The file that a link destination names.
pub fn target_file_of(url: &str) -> (r: Vec<char>)
    ensures
        r@ == target_file(url@),
{
    let chars = chars_of(url);
    let start: usize = if chars.len() >= 2 && chars[0] == '.' && chars[1] == '/' {
        2
    } else {
        0
    };
    proof {
        if start == 2 {
            assert(chars@.subrange(0, 2) =~= seq!['.', '/']);
        } else if seq!['.', '/'].is_prefix_of(chars@) {
            assert(chars@.subrange(0, 2)[0] == '.');
            assert(chars@.subrange(0, 2)[1] == '/');
        }
    }
    let ghost rest = without_dot_slash(chars@);
    assert(rest == chars@.skip(start as int));
    let mut end: usize = start;
    assert(rest.take(0) + before_anchor(rest.skip(0)) =~= before_anchor(rest)) by {
        assert(rest.skip(0) =~= rest);
    }
    while end < chars.len() && chars[end] != '#'
        invariant
            start <= end <= chars.len(),
            rest == chars@.skip(start as int),
            before_anchor(rest) == rest.take(end - start) + before_anchor(rest.skip(end - start)),
        decreases chars.len() - end,
    {
        let ghost tail = rest.skip(end - start);
        assert(tail[0] == chars@[end as int]);
        assert(tail.drop_first() =~= rest.skip(end - start + 1));
        assert(rest.take(end - start) + (seq![tail[0]] + before_anchor(tail.drop_first()))
            =~= rest.take(end - start + 1) + before_anchor(tail.drop_first()));
        end += 1;
    }
    proof {
        let tail = rest.skip(end - start);
        if end < chars.len() {
            assert(tail[0] == '#');
        }
        assert(before_anchor(tail) =~= Seq::<char>::empty());
        assert(rest.take(end - start) + Seq::<char>::empty() =~= rest.take(end - start));
        assert(rest.take(end - start) =~= chars@.subrange(start as int, end as int));
    }
    let mut bare = copy_range(&chars, start, end);
    let extension = chars_of(".md");
    proof {
        reveal_strlit(".md");
        assert(extension@ =~= note_extension());
    }
    if !ends_with(&bare, &extension) {
        append_chars(&mut bare, &extension);
    }
    bare
}

/// The path `rel` under `root`.
pub fn join_path(root: &str, rel: &Vec<char>) -> (r: String)
    ensures
        r@ == joined(root@, rel@),
{
    if rel.len() > 0 && rel[0] == '/' {
        return string_of(rel);
    }
    let mut out = chars_of(root);
    let n = out.len();
    if n > 0 && out[n - 1] != '/' {
        out.push('/');
    }
    append_chars(&mut out, rel);
    string_of(&out)
}

/// The candidate path of each link destination, under the collection root.
pub fn candidate_paths(root: &str, destinations: &Vec<String>) -> (r: Vec<String>)
    ensures
        string_views(r@) == candidates(root@, string_views(destinations@)),
{
    let mut out: Vec<String> = Vec::new();
    let mut i: usize = 0;
    while i < destinations.len()
        invariant
            i <= destinations.len(),
            out.len() == i,
            forall|k: int|
                0 <= k < i ==> (#[trigger] out@[k])@ == joined(
                    root@,
                    target_file(destinations@[k]@),
                ),
        decreases destinations.len() - i,
    {
        let file = target_file_of(destinations[i].as_str());
        out.push(join_path(root, &file));
        i += 1;
    }
    assert(string_views(out@) =~= candidates(root@, string_views(destinations@)));
    out
}

/// The candidate paths of the links that a body makes: what has to be
/// looked up in the file system before the links can be resolved.
pub fn link_candidates(root: &str, content: &str) -> (r: Vec<String>)
    ensures
        string_views(r@) == candidates(root@, link_destinations(content@)),
{
    let destinations = present_texts(&markdown_link_starts(content));
    candidate_paths(root, &destinations)
}

/// The links from `source`, given the canonical path of each candidate, or
/// `None` where the file system knows no such file.
pub fn resolve_links(source: &ZettelId, canonical: &Vec<Option<String>>) -> (r: Result<
    Vec<Link>,
    ZkError,
>)
    ensures
        match resolved(source@, option_views(canonical@)) {
            Ok(links) => r is Ok && link_views(r->Ok_0@) == links,
            Err(fault) => r is Err && r->Err_0 == ZkError::InvalidIdentifier(fault),
        },
{
    let ghost wanted = option_views(canonical@);
    let mut links: Vec<Link> = Vec::new();
    let mut i: usize = 0;
    assert(wanted.take(0) =~= Seq::<Option<Seq<char>>>::empty());
    assert(link_views(links@) =~= Seq::<LinkView>::empty());
    while i < canonical.len()
        invariant
            i <= canonical.len(),
            wanted == option_views(canonical@),
            resolved(source@, wanted.take(i as int)) == Ok::<Seq<LinkView>, IdFault>(
                link_views(links@),
            ),
        decreases canonical.len() - i,
    {
        let ghost before = link_views(links@);
        proof {
            assert(wanted.take(i as int + 1).drop_last() =~= wanted.take(i as int));
            assert(wanted.take(i as int + 1).last() == wanted[i as int]);
        }
        match &canonical[i] {
            None => {},
            Some(path) => {
                match ZettelId::from_path(path.as_str()) {
                    Ok(dest) => {
                        links.push(Link::new(source.clone(), dest));
                        assert(link_views(links@) =~= before.push(links@.last()@));
                    },
                    Err(e) => {
                        proof {
                            lemma_resolved_fault(source@, wanted, i as int + 1);
                        }
                        return Err(e);
                    },
                }
            },
        }
        i += 1;
    }
    assert(wanted.take(canonical.len() as int) =~= wanted);
    Ok(links)
}

/// A fault met on the way stays the result, however many candidates follow.
pub proof fn lemma_resolved_fault(source: Seq<char>, canonical: Seq<Option<Seq<char>>>, n: int)
    requires
        0 <= n <= canonical.len(),
        resolved(source, canonical.take(n)) is Err,
    ensures
        resolved(source, canonical) == resolved(source, canonical.take(n)),
    decreases canonical.len(),
{
    if n == canonical.len() {
        assert(canonical.take(n) =~= canonical);
    } else {
        assert(canonical.drop_last().take(n) =~= canonical.take(n));
        lemma_resolved_fault(source, canonical.drop_last(), n);
    }
}

} // verus!
