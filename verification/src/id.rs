//! The identity of a note: the stem of its file name.

use vstd::prelude::*;
use crate::error::{IdFault, ZkError};
use crate::text::{chars_of, copy_range, same_chars, string_of};

verus! {

/// The identity of a note, the key that links and the index go by. It is the
/// file name of the note without the note extension.
#[derive(PartialEq, Eq, PartialOrd, Ord, Debug, Hash)]
pub struct ZettelId(String);

impl View for ZettelId {
    type V = Seq<char>;

    closed spec fn view(&self) -> Seq<char> {
        self.0@
    }
}

impl Clone for ZettelId {
    fn clone(&self) -> (r: Self)
        ensures
            r@ == self@,
    {
        ZettelId(self.0.clone())
    }
}

/// The extension of a note file, with its dot.
pub open spec fn note_extension() -> Seq<char> {
    seq!['.', 'm', 'd']
}

/// The characters that a generated identifier is drawn from.
pub open spec fn id_alphabet() -> Seq<char> {
    seq![
        'a', 'b', 'c', 'd', 'e', 'f', 'g', 'h', 'i', 'j', 'k', 'l', 'm', 'n', 'o', 'p', 'q', 'r',
        's', 't', 'u', 'v', 'w', 'x', 'y', 'z', '0', '1', '2', '3', '4', '5', '6', '7', '8', '9',
    ]
}

/// The length of a generated identifier.
pub const GENERATED_ID_LEN: usize = 5;

/// Whether a text has the shape of a generated identifier.
pub open spec fn is_generated_id(s: Seq<char>) -> bool {
    &&& s.len() == GENERATED_ID_LEN
    &&& forall|i: int| 0 <= i < s.len() ==> id_alphabet().contains(#[trigger] s[i])
}

/// A path without the separators and the `.` components that it ends in:
/// they name nothing of their own.
pub open spec fn without_trailing(path: Seq<char>) -> Seq<char>
    decreases path.len(),
{
    if path.len() > 0 && (path.last() == '/' || (path.last() == '.' && path.len() >= 2 && path[path.len()
        - 2] == '/')) {
        without_trailing(path.drop_last())
    } else {
        path
    }
}

/// What follows the last `/` of a path.
pub open spec fn last_segment(path: Seq<char>) -> Seq<char>
    decreases path.len(),
{
    if path.len() == 0 || path.last() == '/' {
        seq![]
    } else {
        last_segment(path.drop_last()).push(path.last())
    }
}

/// The last component of a path. Separators at the end of the path are
/// passed over, and so is a `.` after a separator; then the component is
/// what follows the last `/`.
pub open spec fn file_name(path: Seq<char>) -> Seq<char> {
    last_segment(without_trailing(path))
}

/// Whether the last component of a path is the name of a file or directory:
/// it is not empty, and neither `.` nor `..`.
pub open spec fn has_file_name(path: Seq<char>) -> bool {
    let name = file_name(path);
    name.len() > 0 && name != seq!['.'] && name != seq!['.', '.']
}

/// The position of the last dot of a file name, or -1 where it has none.
pub open spec fn last_dot(name: Seq<char>) -> int
    decreases name.len(),
{
    if name.len() == 0 {
        -1
    } else if name.last() == '.' {
        name.len() - 1
    } else {
        last_dot(name.drop_last())
    }
}

/// The identifier that a path gives. The path must have a file name as its
/// last component; the name must have an extension, which a dot at its very
/// start does not begin; the extension must be `md`. The identifier is the
/// name without `.md`.
pub open spec fn id_of_path(path: Seq<char>) -> Result<Seq<char>, IdFault> {
    let name = file_name(path);
    let dot = last_dot(name);
    if !has_file_name(path) {
        Err(IdFault::NoFileName)
    } else if dot <= 0 {
        Err(IdFault::NoExtension)
    } else if name.skip(dot) != note_extension() {
        Err(IdFault::WrongExtension)
    } else {
        Ok(name.take(dot))
    }
}

/// `nanoid::format` with nanoid's default source of random bytes: a text of
/// `size` characters, each drawn from `alphabet`. Which ones is left open. The
/// call does not return for an empty alphabet or a size of zero, and counts the
/// text's length in bytes, so the alphabet is ASCII.
#[verifier::external_body]
fn random_text(alphabet: &Vec<char>, size: usize) -> (s: String)
    requires
        0 < alphabet.len() <= 255,
        forall|i: int| 0 <= i < alphabet.len() ==> (#[trigger] alphabet@[i]) as u32 <= 127,
        0 < size,
        8 * size <= usize::MAX,
    ensures
        s@.len() == size,
        forall|i: int| 0 <= i < s@.len() ==> alphabet@.contains(#[trigger] s@[i]),
{
    nanoid::format(nanoid::rngs::default, alphabet.as_slice(), size)
}

impl ZettelId {
    /// The identifier as text.
    pub fn as_str(&self) -> (s: &str)
        ensures
            s@ == self@,
    {
        self.0.as_str()
    }

    /// The identifier with the given text.
    pub fn new(value: &str) -> (r: ZettelId)
        ensures
            r@ == value@,
    {
        ZettelId(value.to_owned())
    }

    /// A fresh identifier: five characters drawn at random from the lower-case
    /// letters and the digits.
    pub fn generate() -> (r: ZettelId)
        ensures
            is_generated_id(r@),
    {
        let alphabet = chars_of("abcdefghijklmnopqrstuvwxyz0123456789");
        proof {
            reveal_strlit("abcdefghijklmnopqrstuvwxyz0123456789");
            assert(alphabet@ =~= id_alphabet());
        }
        ZettelId(random_text(&alphabet, GENERATED_ID_LEN))
    }

    /// Whether `path` names a note.
    pub fn is_note_path(path: &str) -> (r: bool)
        ensures
            r == (id_of_path(path@) is Ok),
    {
        match ZettelId::from_path(path) {
            Ok(_) => true,
            Err(_) => false,
        }
    }

    /// The identifier of the note that the file at `path` holds. Components of
    /// a path are separated by `/`.
    pub fn from_path(path: &str) -> (r: Result<ZettelId, ZkError>)
        ensures
            match id_of_path(path@) {
                Ok(id) => r is Ok && r->Ok_0@ == id,
                Err(fault) => r is Err && r->Err_0 == ZkError::InvalidIdentifier(fault),
            },
    {
        let chars = chars_of(path);
        let name = file_name_of(&chars);
        let n = name.len();
        if !is_file_name(&name) {
            return Err(ZkError::InvalidIdentifier(IdFault::NoFileName));
        }
        let mut dot: usize = n;
        assert(name@.take(n as int) =~= name@);
        while dot > 0 && name[dot - 1] != '.'
            invariant
                dot <= n,
                n == name.len(),
                last_dot(name@) == last_dot(name@.take(dot as int)),
            decreases dot,
        {
            assert(name@.take(dot as int).drop_last() =~= name@.take(dot as int - 1));
            dot -= 1;
        }
        if dot <= 1 {
            return Err(ZkError::InvalidIdentifier(IdFault::NoExtension));
        }
        let dot = dot - 1;
        let extension = copy_range(&name, dot, n);
        let expected = chars_of(".md");
        proof {
            reveal_strlit(".md");
            assert(expected@ =~= note_extension());
            assert(name@.skip(dot as int) =~= name@.subrange(dot as int, n as int));
        }
        if !same_chars(&extension, &expected) {
            return Err(ZkError::InvalidIdentifier(IdFault::WrongExtension));
        }
        let stem = copy_range(&name, 0, dot);
        assert(name@.take(dot as int) =~= name@.subrange(0, dot as int));
        Ok(ZettelId(string_of(&stem)))
    }
}

impl Default for ZettelId {
    /// A fresh identifier: see [`ZettelId::generate`].
    fn default() -> (r: ZettelId)
        ensures
            is_generated_id(r@),
    {
        ZettelId::generate()
    }
}

/// What follows the last `/` of a path.
fn last_segment_of(path: &Vec<char>) -> (name: Vec<char>)
    ensures
        name@ == last_segment(path@),
{
    let n = path.len();
    let mut start: usize = n;
    assert(path@.take(n as int) =~= path@);
    assert(last_segment(path@.take(n as int)) + path@.skip(n as int) =~= last_segment(path@));
    while start > 0 && path[start - 1] != '/'
        invariant
            start <= n,
            n == path.len(),
            last_segment(path@) == last_segment(path@.take(start as int)) + path@.skip(
                start as int,
            ),
        decreases start,
    {
        let ghost head = path@.take(start as int);
        assert(head.drop_last() =~= path@.take(start as int - 1));
        assert(last_segment(head.drop_last()).push(head.last()) + path@.skip(start as int)
            =~= last_segment(head.drop_last()) + path@.skip(start as int - 1));
        start -= 1;
    }
    assert(last_segment(path@.take(start as int)) =~= Seq::<char>::empty());
    assert(Seq::<char>::empty() + path@.skip(start as int) =~= path@.skip(start as int));
    assert(path@.skip(start as int) =~= path@.subrange(start as int, n as int));
    copy_range(path, start, n)
}

/// The last component of a path.
pub fn file_name_of(path: &Vec<char>) -> (name: Vec<char>)
    ensures
        name@ == file_name(path@),
{
    let mut end: usize = path.len();
    assert(path@.take(end as int) =~= path@);
    while end > 0 && (path[end - 1] == '/' || (path[end - 1] == '.' && end >= 2 && path[end - 2]
        == '/'))
        invariant
            end <= path.len(),
            without_trailing(path@) == without_trailing(path@.take(end as int)),
        decreases end,
    {
        assert(path@.take(end as int).drop_last() =~= path@.take(end as int - 1));
        end -= 1;
    }
    let head = copy_range(path, 0, end);
    assert(head@ =~= path@.take(end as int));
    last_segment_of(&head)
}

/// Whether a last component is the name of a file or directory.
pub fn is_file_name(name: &Vec<char>) -> (r: bool)
    ensures
        r == (name@.len() > 0 && name@ != seq!['.'] && name@ != seq!['.', '.']),
{
    let n = name.len();
    if n == 0 {
        return false;
    }
    if n == 1 && name[0] == '.' {
        assert(name@ =~= seq!['.']);
        return false;
    }
    if n == 2 && name[0] == '.' && name[1] == '.' {
        assert(name@ =~= seq!['.', '.']);
        return false;
    }
    assert(name@ != seq!['.'] && name@ != seq!['.', '.']) by {
        if name@ == seq!['.'] {
            assert(name@[0] == '.');
        }
        if name@ == seq!['.', '.'] {
            assert(name@[0] == '.' && name@[1] == '.');
        }
    }
    true
}

} // verus!
