//! The snapshot of the exported functions, and what a run writes for it.

use crate::headers::declarations::{function_missing, function_text, FunctionArg};
use crate::headers::definitions::names_of;
use crate::headers::layout::{Composite, TypeLayout};
use crate::headers::naming::NamingConvention;
use crate::headers::order::{emission_order, reversed_indices, stable_indices};
use crate::headers::text::{chars_of, trimmed};
use crate::headers::Language;
use vstd::prelude::*;

verus! {

/// An exported function: what foreign code may call.
pub struct FfiExport {
    /// The name of the function, by which it is found and ordered. No two
    /// functions of a snapshot have the same name.
    pub name: String,
    /// Documentation, one entry per line.
    pub docs: Vec<String>,
    /// The arguments, in declared order.
    pub args: Vec<FunctionArg>,
    /// The layout of what the function returns.
    pub ret_ty: TypeLayout,
}

/// The names of the functions of a snapshot, in registration order.
pub open spec fn export_names(exports: Seq<FfiExport>) -> Seq<Seq<char>> {
    Seq::new(exports.len(), |i: int| exports[i].name@)
}

/// Whether no two functions of the snapshot have the same name.
pub open spec fn distinct_names(exports: Seq<FfiExport>) -> bool {
    forall|i: int, j: int|
        #![trigger exports[i], exports[j]]
        0 <= i < j < exports.len() ==> exports[i].name@ != exports[j].name@
}

/// The functions of a snapshot in the order in which a run writes them.
pub open spec fn ordered(exports: Seq<FfiExport>, stable: bool) -> Seq<FfiExport> {
    let order = emission_order(export_names(exports), stable);
    Seq::new(order.len(), |k: int| exports[order[k] as int])
}

/// The composite types that the first `upto` functions of `order` have
/// defined, in the order of their definitions, in a run that found `defined`
/// already defined.
pub open spec fn body_missing(order: Seq<FfiExport>, upto: int, defined: Set<Seq<char>>) -> Seq<
    Composite,
>
    decreases upto,
{
    if upto <= 0 || upto > order.len() {
        Seq::empty()
    } else {
        let before = body_missing(order, upto - 1, defined);
        before + function_missing(
            order[upto - 1].args@,
            order[upto - 1].ret_ty,
            defined.union(names_of(before)),
        )
    }
}

/// What a run writes for the first `upto` functions of `order`, the `k`-th of
/// them under the name `names[k]`.
pub open spec fn body_text(
    lang: Language,
    order: Seq<FfiExport>,
    names: Seq<Seq<char>>,
    upto: int,
    defined: Set<Seq<char>>,
) -> Seq<char>
    decreases upto,
{
    if upto <= 0 || upto > order.len() {
        Seq::empty()
    } else {
        body_text(lang, order, names, upto - 1, defined) + function_text(
            lang,
            names[upto - 1],
            order[upto - 1].docs@,
            order[upto - 1].args@,
            order[upto - 1].ret_ty,
            defined.union(names_of(body_missing(order, upto - 1, defined))),
        )
    }
}

/// Whether `names` holds, for each function of `order`, a spelling of its
/// name that `naming` admits.
pub open spec fn names_admitted(
    naming: NamingConvention,
    order: Seq<FfiExport>,
    names: Seq<Seq<char>>,
) -> bool {
    &&& names.len() == order.len()
    &&& forall|k: int|
        0 <= k < order.len() ==> naming.admits(trimmed(order[k].name@), #[trigger] names[k])
}

/// The names under which a fixed convention writes the functions of
/// `order`.
pub open spec fn fixed_names(naming: NamingConvention, order: Seq<FfiExport>) -> Seq<Seq<char>> {
    Seq::new(order.len(), |k: int| naming.fixed(trimmed(order[k].name@)))
}

/// What is written for the first functions does not depend on the names of
/// the later ones.
pub proof fn lemma_body_text_names(
    lang: Language,
    order: Seq<FfiExport>,
    names: Seq<Seq<char>>,
    others: Seq<Seq<char>>,
    upto: int,
    defined: Set<Seq<char>>,
)
    requires
        forall|k: int| 0 <= k < upto ==> names[k] == others[k],
    ensures
        body_text(lang, order, names, upto, defined) == body_text(
            lang,
            order,
            others,
            upto,
            defined,
        ),
    decreases upto,
{
    if 0 < upto <= order.len() {
        lemma_body_text_names(lang, order, names, others, upto - 1, defined);
    }
}

/// Under a fixed convention the names of a run are the fixed ones.
pub proof fn lemma_fixed_names(
    naming: NamingConvention,
    order: Seq<FfiExport>,
    names: Seq<Seq<char>>,
)
    requires
        naming.is_fixed(),
        names_admitted(naming, order, names),
    ensures
        names == fixed_names(naming, order),
{
    let fixed = fixed_names(naming, order);
    assert forall|k: int| 0 <= k < order.len() implies names[k] == fixed[k] by {
        assert(naming.admits(trimmed(order[k].name@), names[k]));
    }
    assert(names =~= fixed_names(naming, order));
}

/// Picks the order in which the functions are written, as indices into the
/// snapshot: sorted by name, or the registration order reversed.
pub fn order_of(exports: &Vec<FfiExport>, stable: bool) -> (order: Vec<usize>)
    ensures
        order@ == emission_order(export_names(exports@), stable),
        forall|k: int| 0 <= k < order@.len() ==> (#[trigger] order@[k]) < exports@.len(),
{
    if stable {
        let mut keys: Vec<Vec<char>> = Vec::new();
        let mut i: usize = 0;
        while i < exports.len()
            invariant
                i <= exports.len(),
                keys@.len() == i,
                forall|j: int| 0 <= j < i ==> (#[trigger] keys@[j])@ == exports@[j].name@,
            decreases exports.len() - i,
        {
            keys.push(chars_of(exports[i].name.as_str()));
            i += 1;
        }
        proof {
            assert(crate::headers::order::names_of_keys(keys@) =~= export_names(exports@));
        }
        stable_indices(&keys)
    } else {
        reversed_indices(exports.len())
    }
}

} // verus!
