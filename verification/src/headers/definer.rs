//! The sink of a run, and the ledger of the types already defined in it.

use vstd::hash_set::StringHashSet;
use vstd::prelude::*;

verus! {

/// Where a run writes, and the sole authority on which composite types the
/// run has defined so far.
pub trait Definer {
    /// Everything written to the sink so far.
    spec fn written(&self) -> Seq<char>;

    /// The names of the types marked as defined.
    spec fn defined(&self) -> Set<Seq<char>>;

    /// Marks `name` as defined, and tells whether it was not defined before:
    /// only then may the caller write its definition.
    fn insert(&mut self, name: &str) -> (fresh: bool)
        ensures
            fresh == !old(self).defined().contains(name@),
            final(self).defined() == old(self).defined().insert(name@),
            final(self).written() == old(self).written(),
    ;

    /// The sink. What is appended to it has been written by the run.
    fn out(&mut self) -> (sink: &mut String)
        ensures
            sink@ == old(self).written(),
            final(self).written() == final(sink)@,
            final(self).defined() == old(self).defined(),
    ;
}

/// The default [`Definer`]: a string to write to and a set of names.
pub struct HashSetDefiner {
    pub out: String,
    pub defines_set: StringHashSet,
}

impl HashSetDefiner {
    /// A definer that has written nothing and defined nothing.
    pub fn new() -> (definer: Self)
        ensures
            definer.written() == Seq::<char>::empty(),
            definer.defined() == Set::<Seq<char>>::empty(),
    {
        HashSetDefiner { out: String::new(), defines_set: StringHashSet::new() }
    }

    /// Ends the run and hands out what was written.
    pub fn into_string(self) -> (text: String)
        ensures
            text@ == self.written(),
    {
        self.out
    }
}

impl Definer for HashSetDefiner {
    open spec fn written(&self) -> Seq<char> {
        self.out@
    }

    open spec fn defined(&self) -> Set<Seq<char>> {
        self.defines_set@
    }

    fn insert(&mut self, name: &str) -> (fresh: bool) {
        self.defines_set.insert(name.to_owned())
    }

    fn out(&mut self) -> (sink: &mut String) {
        &mut self.out
    }
}

} // verus!
