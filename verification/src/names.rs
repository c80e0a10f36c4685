//! The fixed names of the mirror, and the two ways between the basename of
//! a remote file and the name of its local file.

use vstd::prelude::*;
use crate::text::{
    before_first, chars_of, find_first, lemma_before_first, occurs, occurs_at, text_eq,
};

verus! {

/// The extension that a remote file carries in the local mirror.
pub const SUFFIX: &'static str = ".lua";

/// The file whose change asks the remote service to restart the program.
pub const SENTINEL: &'static str = "restart";

/// The directory that mirrors the open project.
pub const MIRROR_DIR: &'static str = "project";

/// The local file name of a remote basename.
pub open spec fn with_suffix(basename: Seq<char>) -> Seq<char> {
    basename + SUFFIX@
}

/// The remote basename of a local file name: what precedes the first
/// `SUFFIX` in it, and all of it where it holds none.
pub open spec fn without_suffix(file_name: Seq<char>) -> Seq<char> {
    before_first(file_name, SUFFIX@)
}

/// Where a file of the mirror lies, relative to the working directory.
pub open spec fn path_in_mirror(file_name: Seq<char>) -> Seq<char> {
    MIRROR_DIR@ + "/"@ + file_name
}

/// The local file name under which a remote file is mirrored.
pub fn append_suffix(basename: &str) -> (file_name: String)
    ensures
        file_name@ == with_suffix(basename@),
{
    let mut file_name = String::from_str(basename);
    file_name.append(SUFFIX);
    file_name
}

/// The remote basename that a local file name stands for.
pub fn strip_suffix(file_name: &str) -> (basename: &str)
    ensures
        basename@ == without_suffix(file_name@),
{
    let text = chars_of(file_name);
    let pattern = chars_of(SUFFIX);
    match find_first(&text, &pattern) {
        Some(at) => {
            proof {
                lemma_before_first(file_name@, SUFFIX@, at as int);
            }
            file_name.substring_char(0, at)
        },
        None => file_name,
    }
}

/// Whether a file name is the sentinel's.
pub fn is_sentinel(file_name: &str) -> (found: bool)
    ensures
        found == (file_name@ == SENTINEL@),
{
    text_eq(file_name, SENTINEL)
}

/// The path of a mirrored file.
pub fn mirror_path(file_name: &str) -> (path: String)
    ensures
        path@ == path_in_mirror(file_name@),
{
    let mut path = String::from_str(MIRROR_DIR);
    path.append("/");
    path.append(file_name);
    path
}

/// Appending the suffix and stripping it again gives back a basename in which
/// the suffix does not occur.
pub proof fn lemma_suffix_round_trip(basename: Seq<char>)
    requires
        !occurs(basename, SUFFIX@),
    ensures
        without_suffix(with_suffix(basename)) == basename,
{
    reveal_strlit(".lua");
    let name = with_suffix(basename);
    let n = basename.len() as int;
    assert(name.subrange(n, n + 4) =~= SUFFIX@);
    assert forall|earlier: int| 0 <= earlier < n implies !occurs_at(name, SUFFIX@, earlier) by {
        if occurs_at(name, SUFFIX@, earlier) {
            let found = name.subrange(earlier, earlier + 4);
            if earlier + 4 <= n {
                assert(basename.subrange(earlier, earlier + 4) =~= found);
                assert(occurs_at(basename, SUFFIX@, earlier));
            } else {
                // The occurrence would run into the appended suffix, whose first
                // character would then have to equal a later one of its own.
                assert(found[n - earlier] == name[n]);
                assert(name[n] == '.');
            }
        }
    }
    lemma_before_first(name, SUFFIX@, n);
    assert(name.take(n) =~= basename);
}

} // verus!
