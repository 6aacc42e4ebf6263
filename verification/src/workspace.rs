//! Where a collection keeps its metadata store.

use vstd::prelude::*;
use crate::resolver::{join_path, joined};
use crate::text::{append_chars, chars_of, string_of};

verus! {

/// The name of the hidden directory that holds the store of a collection.
pub open spec fn metadata_dir() -> Seq<char> {
    seq!['.', 'e', 'm', 'e', 'r', 'g', 'e', 'n', 'c', 'e']
}

/// The address of a store: the path of its file, for SQLite, to be opened for
/// reading and writing and made where it is missing.
pub open spec fn store_address(file: Seq<char>) -> Seq<char> {
    seq!['s', 'q', 'l', 'i', 't', 'e', ':', '/', '/'] + file + seq![
        '?',
        'm',
        'o',
        'd',
        'e',
        '=',
        'r',
        'w',
        'c',
    ]
}

/// The file of the store of the collection at `root`.
pub open spec fn store_file(root: Seq<char>) -> Seq<char> {
    root + seq!['/'] + metadata_dir() + seq![
        '/',
        'e',
        'm',
        'e',
        'r',
        'g',
        'e',
        'n',
        'c',
        'e',
        '.',
        's',
        'q',
        'l',
        'i',
        't',
        'e',
    ]
}

/// The directory that holds the store of the collection at `root`.
pub fn metadata_folder(root: &str) -> (r: String)
    ensures
        r@ == joined(root@, metadata_dir()),
{
    let dir = chars_of(".emergence");
    proof {
        reveal_strlit(".emergence");
        assert(dir@ =~= metadata_dir());
    }
    join_path(root, &dir)
}

/// The address of the store of the collection whose canonical path is `root`.
pub fn store_url(root: &str) -> (r: String)
    ensures
        r@ == store_address(store_file(root@)),
{
    let mut out = chars_of("sqlite://");
    append_chars(&mut out, &chars_of(root));
    append_chars(&mut out, &chars_of("/.emergence/emergence.sqlite"));
    append_chars(&mut out, &chars_of("?mode=rwc"));
    proof {
        reveal_strlit("sqlite://");
        reveal_strlit("/.emergence/emergence.sqlite");
        reveal_strlit("?mode=rwc");
        assert(out@ =~= store_address(store_file(root@)));
    }
    string_of(&out)
}

} // verus!
