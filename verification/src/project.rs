//! The choice of the project to open.

use vstd::prelude::*;
use crate::text::{starts_with, texts};

verus! {

/// The names among `names` that begin with `line`, in their order.
pub open spec fn completing(names: Seq<Seq<char>>, line: Seq<char>) -> Seq<Seq<char>> {
    names.filter(|name: Seq<char>| line.is_prefix_of(name))
}

/// Completes the name of a project from what the user has typed of it.
pub struct ProjectSelector {
    names: Vec<String>,
}

impl View for ProjectSelector {
    type V = Seq<Seq<char>>;

    closed spec fn view(&self) -> Seq<Seq<char>> {
        texts(self.names@)
    }
}

impl ProjectSelector {
    /// A selector among the projects of these names.
    pub fn new(names: Vec<String>) -> (selector: ProjectSelector)
        ensures
            selector@ == texts(names@),
    {
        ProjectSelector { names }
    }

    /// The candidates for the line typed so far, and where in the line the
    /// text that they replace begins: the names that begin with the whole
    /// line, in their order, replace it from its start.
    pub fn complete(&self, line: &str) -> (completion: (usize, Vec<String>))
        ensures
            completion.0 == 0,
            texts(completion.1@) == completing(self@, line@),
    {
        let ghost fits = |name: Seq<char>| line@.is_prefix_of(name);
        let mut candidates: Vec<String> = Vec::new();
        let mut i: usize = 0;
        proof {
            assert(texts(self.names@.take(0)) =~= Seq::<Seq<char>>::empty());
            texts(self.names@.take(0)).lemma_filter_len(fits);
            assert(texts(candidates@) =~= completing(texts(self.names@.take(0)), line@));
        }
        while i < self.names.len()
            invariant
                i <= self.names.len(),
                fits == |name: Seq<char>| line@.is_prefix_of(name),
                texts(candidates@) == completing(texts(self.names@.take(i as int)), line@),
            decreases self.names.len() - i,
        {
            proof {
                let done = self.names@.take(i as int);
                let next = self.names@[i as int];
                assert(self.names@.take(i + 1) =~= done.push(next));
                assert(texts(done.push(next)) =~= texts(done).push(next@));
                texts(done).lemma_filter_push(next@, fits);
            }
            if starts_with(self.names[i].as_str(), line) {
                let name = self.names[i].clone();
                proof {
                    assert(texts(candidates@.push(name)) =~= texts(candidates@).push(name@));
                }
                candidates.push(name);
            }
            i += 1;
        }
        assert(self.names@.take(i as int) =~= self.names@);
        (0, candidates)
    }
}

} // verus!
