//! The files that belong to the open project.

use vstd::prelude::*;
use crate::names::{append_suffix, with_suffix};
use crate::text::{text_eq, texts};

verus! {

/// The local file names that belong to the open project, in the order in
/// which the remote service listed them.
pub struct Whitelist {
    names: Vec<String>,
}

impl View for Whitelist {
    type V = Seq<Seq<char>>;

    closed spec fn view(&self) -> Seq<Seq<char>> {
        texts(self.names@)
    }
}

/// The local file names of a listing of remote basenames.
pub open spec fn listed(basenames: Seq<Seq<char>>) -> Seq<Seq<char>> {
    basenames.map_values(|basename: Seq<char>| with_suffix(basename))
}

impl Whitelist {
    /// A whitelist that admits no file.
    pub fn new() -> (whitelist: Whitelist)
        ensures
            whitelist@ == Seq::<Seq<char>>::empty(),
    {
        let whitelist = Whitelist { names: Vec::new() };
        assert(whitelist@ =~= Seq::<Seq<char>>::empty());
        whitelist
    }

    /// The whitelist of the files that a listing of remote basenames names.
    pub fn from_listing(basenames: &Vec<String>) -> (whitelist: Whitelist)
        ensures
            whitelist@ == listed(texts(basenames@)),
    {
        let mut whitelist = Whitelist::new();
        let mut i: usize = 0;
        while i < basenames.len()
            invariant
                i <= basenames.len(),
                whitelist@ == listed(texts(basenames@.take(i as int))),
            decreases basenames.len() - i,
        {
            let file_name = append_suffix(basenames[i].as_str());
            whitelist.push(file_name);
            proof {
                let done = basenames@.take(i as int);
                assert(basenames@.take(i + 1) =~= done.push(basenames@[i as int]));
                assert(listed(texts(done.push(basenames@[i as int]))) =~= listed(texts(done)).push(
                    with_suffix(basenames@[i as int]@),
                ));
            }
            i += 1;
        }
        assert(basenames@.take(i as int) =~= basenames@);
        whitelist
    }

    /// Admits one more file name.
    pub fn push(&mut self, file_name: String)
        ensures
            final(self)@ == old(self)@.push(file_name@),
    {
        self.names.push(file_name);
        assert(self@ =~= old(self)@.push(file_name@));
    }

    /// How many file names were admitted.
    pub fn len(&self) -> (count: usize)
        ensures
            count == self@.len(),
    {
        self.names.len()
    }

    /// Whether a file name belongs to the open project.
    pub fn contains(&self, file_name: &str) -> (found: bool)
        ensures
            found == self@.contains(file_name@),
    {
        let mut i: usize = 0;
        while i < self.names.len()
            invariant
                i <= self.names.len(),
                forall|j: int| 0 <= j < i ==> self@[j] != file_name@,
            decreases self.names.len() - i,
        {
            if text_eq(self.names[i].as_str(), file_name) {
                assert(self@[i as int] == file_name@);
                return true;
            }
            i += 1;
        }
        false
    }

    /// The admitted file names.
    pub fn names(&self) -> (names: &Vec<String>)
        ensures
            texts(names@) == self@,
    {
        &self.names
    }
}

} // verus!
