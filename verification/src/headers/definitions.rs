//! Which composite types a layout still needs defined, in which order, and
//! the recursion that writes them.

use crate::headers::definer::Definer;
use crate::headers::layout::{Composite, Field, TypeLayout};
use crate::headers::Language;
use vstd::prelude::*;

verus! {

/// The names of the composite types in `defs`.
pub open spec fn names_of(defs: Seq<Composite>) -> Set<Seq<char>> {
    Set::new(
        |name: Seq<char>| exists|i: int| 0 <= i < defs.len() && (#[trigger] defs[i]).name@ == name,
    )
}

/// The definitions of `defs`, one after the other.
pub open spec fn definitions_text(lang: Language, defs: Seq<Composite>) -> Seq<char>
    decreases defs.len(),
{
    if defs.len() == 0 {
        Seq::empty()
    } else {
        definitions_text(lang, defs.drop_last()) + lang.struct_text(defs.last())
    }
}

impl TypeLayout {
    /// The composite types that have to be defined before this layout can be
    /// used, in the order in which they are written, when the types of
    /// `defined` need no definition any more.
    ///
    /// A composite that is not yet defined is marked first; then come the
    /// types that its members miss, member by member; its own definition is
    /// last.
    pub open spec fn missing(&self, defined: Set<Seq<char>>) -> Seq<Composite>
        decreases self,
    {
        match self {
            TypeLayout::Primitive(_) => Seq::empty(),
            TypeLayout::Pointer { pointee, .. } => pointee.missing(defined),
            TypeLayout::FixedArray { item, .. } => item.missing(defined),
            TypeLayout::Composite(c) => if defined.contains(c.name@) {
                Seq::empty()
            } else {
                missing_in_fields(c.fields@, c.fields@.len() as int, defined.insert(c.name@)).push(
                    *c,
                )
            },
        }
    }

    /// Whether a declaration of this layout names the composite type `name`:
    /// whether that type is reached through pointers and arrays alone.
    pub open spec fn refers_to(&self, name: Seq<char>) -> bool
        decreases self,
    {
        match self {
            TypeLayout::Primitive(_) => false,
            TypeLayout::Pointer { pointee, .. } => pointee.refers_to(name),
            TypeLayout::FixedArray { item, .. } => item.refers_to(name),
            TypeLayout::Composite(c) => c.name@ == name,
        }
    }

    /// Whether the composite type `node` is a part of this layout.
    pub open spec fn mentions(&self, node: Composite) -> bool
        decreases self,
    {
        match self {
            TypeLayout::Primitive(_) => false,
            TypeLayout::Pointer { pointee, .. } => pointee.mentions(node),
            TypeLayout::FixedArray { item, .. } => item.mentions(node),
            TypeLayout::Composite(c) => *c == node || exists|i: int|
                0 <= i < c.fields@.len() && (#[trigger] c.fields@[i]).ty.mentions(node),
        }
    }

    /// Whether no composite type of this layout has a name of `above`, nor
    /// the name of a composite type that it is a part of.
    pub open spec fn well_nested(&self, above: Set<Seq<char>>) -> bool
        decreases self,
    {
        match self {
            TypeLayout::Primitive(_) => true,
            TypeLayout::Pointer { pointee, .. } => pointee.well_nested(above),
            TypeLayout::FixedArray { item, .. } => item.well_nested(above),
            TypeLayout::Composite(c) => !above.contains(c.name@) && forall|i: int|
                0 <= i < c.fields@.len() ==> (#[trigger] c.fields@[i]).ty.well_nested(
                    above.insert(c.name@),
                ),
        }
    }

    /// Writes the definitions of the composite types that this layout
    /// mentions and that `definer` has not seen yet, each after the ones it
    /// depends on, and marks them as defined.
    pub fn define_self<D: Definer>(&self, lang: Language, definer: &mut D)
        ensures
            final(definer).written() == old(definer).written() + definitions_text(
                lang,
                self.missing(old(definer).defined()),
            ),
            final(definer).defined() == old(definer).defined().union(
                names_of(self.missing(old(definer).defined())),
            ),
        decreases self,
    {
        match self {
            TypeLayout::Primitive(_) => {
                proof {
                    lemma_no_definitions(lang, old(definer).defined());
                }
            },
            TypeLayout::Pointer { pointee, .. } => pointee.define_self(lang, definer),
            TypeLayout::FixedArray { item, .. } => item.define_self(lang, definer),
            TypeLayout::Composite(c) => {
                let ghost before = definer.defined();
                if definer.insert(c.name.as_str()) {
                    define_fields(&c.fields, lang, definer);
                    lang.emit_struct(definer, c);
                    proof {
                        let marked = before.insert(c.name@);
                        let inner = missing_in_fields(c.fields@, c.fields@.len() as int, marked);
                        lemma_definitions_concat(lang, inner, seq![*c]);
                        lemma_single_definition(lang, *c);
                        assert(inner.push(*c) =~= inner + seq![*c]);
                    }
                } else {
                    proof {
                        lemma_no_definitions(lang, before);
                    }
                }
            },
        }
    }
}

/// Invoke the language-specific typedef code for the given type.
pub fn __define_self__<D: Definer>(definer: &mut D, lang: Language, ty: &TypeLayout)
    ensures
        final(definer).written() == old(definer).written() + definitions_text(
            lang,
            ty.missing(old(definer).defined()),
        ),
        final(definer).defined() == old(definer).defined().union(
            names_of(ty.missing(old(definer).defined())),
        ),
{
    ty.define_self(lang, definer)
}

/// Writes what the members of a composite type miss, member by member.
pub fn define_fields<D: Definer>(fields: &Vec<Field>, lang: Language, definer: &mut D)
    ensures
        final(definer).written() == old(definer).written() + definitions_text(
            lang,
            missing_in_fields(fields@, fields@.len() as int, old(definer).defined()),
        ),
        final(definer).defined() == old(definer).defined().union(
            names_of(missing_in_fields(fields@, fields@.len() as int, old(definer).defined())),
        ),
    decreases fields,
{
    let ghost before = definer.defined();
    let ghost text = definer.written();
    proof {
        lemma_no_definitions(lang, before);
    }
    let mut i: usize = 0;
    while i < fields.len()
        invariant
            i <= fields.len(),
            definer.written() == text + definitions_text(
                lang,
                missing_in_fields(fields@, i as int, before),
            ),
            definer.defined() == before.union(
                names_of(missing_in_fields(fields@, i as int, before)),
            ),
        decreases fields.len() - i,
    {
        let ghost sofar = missing_in_fields(fields@, i as int, before);
        let ghost more = fields@[i as int].ty.missing(before.union(names_of(sofar)));
        fields[i].ty.define_self(lang, definer);
        proof {
            lemma_definitions_concat(lang, sofar, more);
            assert(before.union(names_of(sofar)).union(names_of(more)) =~= before.union(
                names_of(sofar).union(names_of(more)),
            ));
        }
        i += 1;
    }
}

/// The composite types that the first `upto` of `fields` miss, in the order
/// in which they are written: each field sees as defined what the fields
/// before it had defined.
pub open spec fn missing_in_fields(fields: Seq<Field>, upto: int, defined: Set<Seq<char>>) -> Seq<
    Composite,
>
    decreases fields, upto,
{
    if upto <= 0 || upto > fields.len() {
        Seq::empty()
    } else {
        let before = missing_in_fields(fields, upto - 1, defined);
        before + fields[upto - 1].ty.missing(defined.union(names_of(before)))
    }
}

/// Nothing to define: nothing is written and nothing is marked.
pub proof fn lemma_no_definitions(lang: Language, defined: Set<Seq<char>>)
    ensures
        definitions_text(lang, Seq::empty()) == Seq::<char>::empty(),
        names_of(Seq::empty()) == Set::<Seq<char>>::empty(),
        defined.union(names_of(Seq::empty())) == defined,
{
    assert(names_of(Seq::empty()) =~= Set::<Seq<char>>::empty());
    assert(defined.union(Set::<Seq<char>>::empty()) =~= defined);
}

/// A single definition: its text, and its name marked.
pub proof fn lemma_single_definition(lang: Language, composite: Composite)
    ensures
        definitions_text(lang, seq![composite]) == lang.struct_text(composite),
        names_of(seq![composite]) == Set::<Seq<char>>::empty().insert(composite.name@),
{
    let one = seq![composite];
    assert(one.drop_last() =~= Seq::<Composite>::empty());
    assert(one.last() == composite);
    assert(definitions_text(lang, one.drop_last()) == Seq::<char>::empty());
    assert(definitions_text(lang, one) =~= lang.struct_text(composite));
    assert(one[0].name@ == composite.name@);
    assert(names_of(one) =~= Set::<Seq<char>>::empty().insert(composite.name@));
}

/// The names of two batches of definitions put together.
pub proof fn lemma_names_concat(first: Seq<Composite>, second: Seq<Composite>)
    ensures
        names_of(first + second) == names_of(first).union(names_of(second)),
{
    let both = first + second;
    assert forall|name: Seq<char>| names_of(both).contains(name) <==> names_of(first).union(
        names_of(second),
    ).contains(name) by {
        if names_of(both).contains(name) {
            let i = choose|i: int| 0 <= i < both.len() && (#[trigger] both[i]).name@ == name;
            if i < first.len() {
                assert(first[i].name@ == name);
            } else {
                assert(second[i - first.len()].name@ == name);
            }
        }
        if names_of(first).contains(name) {
            let i = choose|i: int| 0 <= i < first.len() && (#[trigger] first[i]).name@ == name;
            assert(both[i].name@ == name);
        }
        if names_of(second).contains(name) {
            let i = choose|i: int| 0 <= i < second.len() && (#[trigger] second[i]).name@ == name;
            assert(both[first.len() + i].name@ == name);
        }
    }
    assert(names_of(both) =~= names_of(first).union(names_of(second)));
}

/// Definitions written one batch after the other are the definitions of the
/// two batches put together.
pub proof fn lemma_definitions_concat(lang: Language, first: Seq<Composite>, second: Seq<Composite>)
    ensures
        definitions_text(lang, first + second) == definitions_text(lang, first) + definitions_text(
            lang,
            second,
        ),
        names_of(first + second) == names_of(first).union(names_of(second)),
    decreases second.len(),
{
    let both = first + second;
    lemma_names_concat(first, second);
    if second.len() == 0 {
        assert(both =~= first);
    } else {
        lemma_definitions_concat(lang, first, second.drop_last());
        assert(both.drop_last() =~= first + second.drop_last());
        assert(both.last() == second.last());
    }
}

} // verus!
