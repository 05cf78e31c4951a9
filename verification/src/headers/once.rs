//! Every composite type is defined at most once, and before what names it.

use crate::headers::declarations::{function_missing, FunctionArg};
use crate::headers::definitions::{lemma_names_concat, missing_in_fields, names_of};
use crate::headers::layout::{Composite, Field, TypeLayout};
use crate::headers::registry::{body_missing, FfiExport};
use vstd::prelude::*;

verus! {

/// Whether `defs` holds, before its position `k`, the definition of the
/// type named `name`.
pub open spec fn defined_earlier(defs: Seq<Composite>, k: int, name: Seq<char>) -> bool {
    exists|j: int| 0 <= j < k && j < defs.len() && (#[trigger] defs[j]).name@ == name
}

/// Whether the definitions `defs` are new to a run that has `defined`
/// defined, and no two of them define the same type.
pub open spec fn defined_once(defs: Seq<Composite>, defined: Set<Seq<char>>) -> bool {
    &&& forall|k: int| 0 <= k < defs.len() ==> !defined.contains((#[trigger] defs[k]).name@)
    &&& forall|k: int| 0 <= k < defs.len() ==> !defined_earlier(defs, k, (#[trigger] defs[k]).name@)
}

/// Whether a member of `composite` names the composite type `name`.
pub open spec fn composite_refers(composite: Composite, name: Seq<char>) -> bool {
    exists|i: int|
        0 <= i < composite.fields@.len() && (#[trigger] composite.fields@[i]).ty.refers_to(name)
}

/// Whether every type that a definition of `defs` names was in `seen`, and
/// not in `above`, or is defined earlier in `defs`.
pub open spec fn ordered_under(
    defs: Seq<Composite>,
    seen: Set<Seq<char>>,
    above: Set<Seq<char>>,
) -> bool {
    forall|k: int, name: Seq<char>|
        0 <= k < defs.len() && #[trigger] composite_refers(defs[k], name) ==> (seen.contains(name)
            && !above.contains(name)) || defined_earlier(defs, k, name)
}

/// Whether every type that a definition of `defs` names is defined earlier
/// in `defs`, unless the run found it defined.
pub open spec fn defined_before_use(defs: Seq<Composite>, defined: Set<Seq<char>>) -> bool {
    ordered_under(defs, defined, Set::empty())
}

/// Whether one of the first `upto` of `fields` names the composite type
/// `name`.
pub open spec fn fields_refer(fields: Seq<Field>, upto: int, name: Seq<char>) -> bool {
    exists|i: int|
        0 <= i < upto && i < fields.len() && (#[trigger] fields[i]).ty.refers_to(name)
}

/// Whether the first `upto` of `fields` are well nested under `above`.
pub open spec fn fields_well_nested(fields: Seq<Field>, upto: int, above: Set<Seq<char>>) -> bool {
    forall|i: int|
        0 <= i < upto && i < fields.len() ==> (#[trigger] fields[i]).ty.well_nested(above)
}

/// Two batches of new definitions, the second new to the first as well,
/// are one batch of new definitions.
pub proof fn lemma_once_concat(
    first: Seq<Composite>,
    second: Seq<Composite>,
    defined: Set<Seq<char>>,
)
    requires
        defined_once(first, defined),
        defined_once(second, defined.union(names_of(first))),
    ensures
        defined_once(first + second, defined),
{
    let both = first + second;
    assert forall|k: int| 0 <= k < both.len() implies !defined.contains(
        (#[trigger] both[k]).name@,
    ) by {
        if k < first.len() {
            assert(both[k] == first[k]);
        } else {
            assert(both[k] == second[k - first.len()]);
        }
    }
    assert forall|k: int| 0 <= k < both.len() implies !defined_earlier(
        both,
        k,
        (#[trigger] both[k]).name@,
    ) by {
        let name = both[k].name@;
        if defined_earlier(both, k, name) {
            let j = choose|j: int|
                0 <= j < k && j < both.len() && (#[trigger] both[j]).name@ == name;
            if k < first.len() {
                assert(both[k] == first[k]);
                assert(first[j].name@ == name);
                assert(defined_earlier(first, k, first[k].name@));
            } else {
                let k2 = k - first.len();
                assert(both[k] == second[k2]);
                if j < first.len() {
                    assert(first[j].name@ == name);
                    assert(names_of(first).contains(name));
                    assert(defined.union(names_of(first)).contains(second[k2].name@));
                } else {
                    assert(second[j - first.len()].name@ == name);
                    assert(defined_earlier(second, k2, second[k2].name@));
                }
            }
        }
    }
}

/// A composite type that is marked before what its members miss is defined
/// stays new when its own definition follows.
proof fn lemma_once_push(inner: Seq<Composite>, composite: Composite, defined: Set<Seq<char>>)
    requires
        !defined.contains(composite.name@),
        defined_once(inner, defined.insert(composite.name@)),
    ensures
        defined_once(inner.push(composite), defined),
{
    let defs = inner.push(composite);
    assert forall|k: int| 0 <= k < defs.len() implies !defined.contains(
        (#[trigger] defs[k]).name@,
    ) by {
        if k < inner.len() {
            assert(defs[k] == inner[k]);
        }
    }
    assert forall|k: int| 0 <= k < defs.len() implies !defined_earlier(
        defs,
        k,
        (#[trigger] defs[k]).name@,
    ) by {
        let name = defs[k].name@;
        if defined_earlier(defs, k, name) {
            let j = choose|j: int|
                0 <= j < k && j < defs.len() && (#[trigger] defs[j]).name@ == name;
            assert(defs[j] == inner[j]);
            if k < inner.len() {
                assert(defs[k] == inner[k]);
                assert(defined_earlier(inner, k, inner[k].name@));
            } else {
                assert(defined.insert(composite.name@).contains(inner[j].name@));
            }
        }
    }
}

/// What a layout misses is new to the run, and defined once.
pub proof fn lemma_missing_once(ty: TypeLayout, defined: Set<Seq<char>>)
    ensures
        defined_once(ty.missing(defined), defined),
    decreases ty,
{
    match ty {
        TypeLayout::Primitive(_) => {},
        TypeLayout::Pointer { pointee, .. } => lemma_missing_once(*pointee, defined),
        TypeLayout::FixedArray { item, .. } => lemma_missing_once(*item, defined),
        TypeLayout::Composite(c) => {
            if !defined.contains(c.name@) {
                let marked = defined.insert(c.name@);
                lemma_fields_once(c.fields@, c.fields@.len() as int, marked);
                lemma_once_push(
                    missing_in_fields(c.fields@, c.fields@.len() as int, marked),
                    c,
                    defined,
                );
            }
        },
    }
}

/// What the first `upto` of `fields` miss is new to the run, and defined
/// once.
pub proof fn lemma_fields_once(fields: Seq<Field>, upto: int, defined: Set<Seq<char>>)
    ensures
        defined_once(missing_in_fields(fields, upto, defined), defined),
    decreases fields, upto,
{
    if 0 < upto <= fields.len() {
        let before = missing_in_fields(fields, upto - 1, defined);
        lemma_fields_once(fields, upto - 1, defined);
        lemma_missing_once(fields[upto - 1].ty, defined.union(names_of(before)));
        lemma_once_concat(
            before,
            fields[upto - 1].ty.missing(defined.union(names_of(before))),
            defined,
        );
    }
}

/// A composite type that a layout names is defined once the layout has
/// defined itself.
pub proof fn lemma_refers_defined(ty: TypeLayout, defined: Set<Seq<char>>, name: Seq<char>)
    requires
        ty.refers_to(name),
    ensures
        defined.contains(name) || names_of(ty.missing(defined)).contains(name),
    decreases ty,
{
    match ty {
        TypeLayout::Primitive(_) => {},
        TypeLayout::Pointer { pointee, .. } => lemma_refers_defined(*pointee, defined, name),
        TypeLayout::FixedArray { item, .. } => lemma_refers_defined(*item, defined, name),
        TypeLayout::Composite(c) => {
            if !defined.contains(name) {
                let defs = ty.missing(defined);
                assert(defs[defs.len() - 1].name@ == name);
            }
        },
    }
}

/// A composite type that one of the first `upto` of `fields` names is
/// defined once these fields have defined themselves.
pub proof fn lemma_fields_refer_defined(
    fields: Seq<Field>,
    upto: int,
    defined: Set<Seq<char>>,
    name: Seq<char>,
)
    requires
        upto <= fields.len(),
        fields_refer(fields, upto, name),
    ensures
        defined.contains(name) || names_of(missing_in_fields(fields, upto, defined)).contains(name),
{
    let i = choose|i: int|
        0 <= i < upto && i < fields.len() && (#[trigger] fields[i]).ty.refers_to(name);
    lemma_fields_refer_defined_within(fields, upto, defined, name, i);
}

/// The same, of the field `i`.
proof fn lemma_fields_refer_defined_within(
    fields: Seq<Field>,
    upto: int,
    defined: Set<Seq<char>>,
    name: Seq<char>,
    i: int,
)
    requires
        0 <= i < upto <= fields.len(),
        fields[i].ty.refers_to(name),
    ensures
        defined.contains(name) || names_of(missing_in_fields(fields, upto, defined)).contains(name),
    decreases upto,
{
    let before = missing_in_fields(fields, upto - 1, defined);
    let seen = defined.union(names_of(before));
    let part = fields[upto - 1].ty.missing(seen);
    lemma_names_concat(before, part);
    if i < upto - 1 {
        lemma_fields_refer_defined_within(fields, upto - 1, defined, name, i);
    } else {
        lemma_refers_defined(fields[i].ty, seen, name);
    }
}

/// A well-nested layout names no type that it is nested under.
pub proof fn lemma_refers_not_above(ty: TypeLayout, above: Set<Seq<char>>, name: Seq<char>)
    requires
        ty.well_nested(above),
        ty.refers_to(name),
    ensures
        !above.contains(name),
    decreases ty,
{
    match ty {
        TypeLayout::Primitive(_) => {},
        TypeLayout::Pointer { pointee, .. } => lemma_refers_not_above(*pointee, above, name),
        TypeLayout::FixedArray { item, .. } => lemma_refers_not_above(*item, above, name),
        TypeLayout::Composite(c) => {},
    }
}

/// Two batches that are each in order, the second after the first, are in
/// order together.
pub proof fn lemma_ordered_concat_under(
    first: Seq<Composite>,
    second: Seq<Composite>,
    seen: Set<Seq<char>>,
    above: Set<Seq<char>>,
)
    requires
        ordered_under(first, seen, above),
        ordered_under(second, seen.union(names_of(first)), above),
    ensures
        ordered_under(first + second, seen, above),
{
    let both = first + second;
    assert forall|k: int, name: Seq<char>|
        0 <= k < both.len() && #[trigger] composite_refers(both[k], name) implies (seen.contains(
        name,
    ) && !above.contains(name)) || defined_earlier(both, k, name) by {
        if k < first.len() {
            assert(both[k] == first[k]);
            assert(composite_refers(first[k], name));
            if defined_earlier(first, k, name) {
                let j = choose|j: int|
                    0 <= j < k && j < first.len() && (#[trigger] first[j]).name@ == name;
                assert(both[j].name@ == name);
            }
        } else {
            let k2 = k - first.len();
            assert(both[k] == second[k2]);
            assert(composite_refers(second[k2], name));
            if defined_earlier(second, k2, name) {
                let j = choose|j: int|
                    0 <= j < k2 && j < second.len() && (#[trigger] second[j]).name@ == name;
                assert(both[first.len() + j].name@ == name);
            } else if names_of(first).contains(name) {
                let j = choose|j: int| 0 <= j < first.len() && (#[trigger] first[j]).name@ == name;
                assert(both[j].name@ == name);
            }
        }
    }
}

/// A definition whose members name only what is defined may follow.
proof fn lemma_ordered_push(
    inner: Seq<Composite>,
    composite: Composite,
    seen: Set<Seq<char>>,
    above: Set<Seq<char>>,
)
    requires
        ordered_under(inner, seen.insert(composite.name@), above.insert(composite.name@)),
        forall|name: Seq<char>| #[trigger]
            composite_refers(composite, name) ==> (seen.contains(name) && !above.contains(name))
                || names_of(inner).contains(name),
    ensures
        ordered_under(inner.push(composite), seen, above),
{
    let defs = inner.push(composite);
    assert forall|k: int, name: Seq<char>|
        0 <= k < defs.len() && #[trigger] composite_refers(defs[k], name) implies (seen.contains(
        name,
    ) && !above.contains(name)) || defined_earlier(defs, k, name) by {
        if k < inner.len() {
            assert(defs[k] == inner[k]);
            assert(composite_refers(inner[k], name));
            if defined_earlier(inner, k, name) {
                let j = choose|j: int|
                    0 <= j < k && j < inner.len() && (#[trigger] inner[j]).name@ == name;
                assert(defs[j].name@ == name);
            }
        } else {
            assert(defs[k] == composite);
            if names_of(inner).contains(name) {
                let j = choose|j: int| 0 <= j < inner.len() && (#[trigger] inner[j]).name@ == name;
                assert(defs[j].name@ == name);
            }
        }
    }
}

/// The definitions that a well-nested layout misses come in an order in
/// which each follows the definitions of the types that it names.
pub proof fn lemma_missing_ordered(ty: TypeLayout, seen: Set<Seq<char>>, above: Set<Seq<char>>)
    requires
        ty.well_nested(above),
    ensures
        ordered_under(ty.missing(seen), seen, above),
    decreases ty,
{
    match ty {
        TypeLayout::Primitive(_) => {},
        TypeLayout::Pointer { pointee, .. } => lemma_missing_ordered(*pointee, seen, above),
        TypeLayout::FixedArray { item, .. } => lemma_missing_ordered(*item, seen, above),
        TypeLayout::Composite(c) => {
            if !seen.contains(c.name@) {
                let marked = seen.insert(c.name@);
                let nested = above.insert(c.name@);
                let len = c.fields@.len() as int;
                let inner = missing_in_fields(c.fields@, len, marked);
                assert(fields_well_nested(c.fields@, len, nested));
                lemma_fields_ordered(c.fields@, len, marked, nested);
                assert forall|name: Seq<char>| #[trigger]
                    composite_refers(c, name) implies (seen.contains(name) && !above.contains(name))
                    || names_of(inner).contains(name) by {
                    let i = choose|i: int|
                        0 <= i < c.fields@.len() && (#[trigger] c.fields@[i]).ty.refers_to(name);
                    assert(fields_refer(c.fields@, len, name));
                    lemma_fields_refer_defined(c.fields@, len, marked, name);
                    lemma_refers_not_above(c.fields@[i].ty, nested, name);
                }
                lemma_ordered_push(inner, c, seen, above);
            }
        },
    }
}

/// The same, of what the first `upto` of `fields` miss.
pub proof fn lemma_fields_ordered(
    fields: Seq<Field>,
    upto: int,
    seen: Set<Seq<char>>,
    above: Set<Seq<char>>,
)
    requires
        fields_well_nested(fields, upto, above),
    ensures
        ordered_under(missing_in_fields(fields, upto, seen), seen, above),
    decreases fields, upto,
{
    if 0 < upto <= fields.len() {
        let before = missing_in_fields(fields, upto - 1, seen);
        lemma_fields_ordered(fields, upto - 1, seen, above);
        assert(fields[upto - 1].ty.well_nested(above));
        lemma_missing_ordered(fields[upto - 1].ty, seen.union(names_of(before)), above);
        lemma_ordered_concat_under(
            before,
            fields[upto - 1].ty.missing(seen.union(names_of(before))),
            seen,
            above,
        );
    }
}

/// Whether `node` is a part of one of the first `upto` of `fields`.
pub open spec fn fields_mention(fields: Seq<Field>, upto: int, node: Composite) -> bool {
    exists|i: int| 0 <= i < upto && i < fields.len() && (#[trigger] fields[i]).ty.mentions(node)
}

/// What a layout misses are parts of it.
pub proof fn lemma_missing_mentioned(ty: TypeLayout, defined: Set<Seq<char>>, at: int)
    requires
        0 <= at < ty.missing(defined).len(),
    ensures
        ty.mentions(ty.missing(defined)[at]),
    decreases ty,
{
    match ty {
        TypeLayout::Primitive(_) => {},
        TypeLayout::Pointer { pointee, .. } => lemma_missing_mentioned(*pointee, defined, at),
        TypeLayout::FixedArray { item, .. } => lemma_missing_mentioned(*item, defined, at),
        TypeLayout::Composite(c) => {
            let marked = defined.insert(c.name@);
            let inner = missing_in_fields(c.fields@, c.fields@.len() as int, marked);
            if at < inner.len() {
                lemma_fields_missing_mentioned(c.fields@, c.fields@.len() as int, marked, at);
                let i = choose|i: int|
                    0 <= i < c.fields@.len() && i < c.fields@.len() && (
                    #[trigger] c.fields@[i]).ty.mentions(inner[at]);
                assert(c.fields@[i].ty.mentions(ty.missing(defined)[at]));
            }
        },
    }
}

/// What the first `upto` of `fields` miss are parts of them.
pub proof fn lemma_fields_missing_mentioned(
    fields: Seq<Field>,
    upto: int,
    defined: Set<Seq<char>>,
    at: int,
)
    requires
        0 <= at < missing_in_fields(fields, upto, defined).len(),
    ensures
        fields_mention(fields, upto, missing_in_fields(fields, upto, defined)[at]),
    decreases fields, upto,
{
    if 0 < upto <= fields.len() {
        let before = missing_in_fields(fields, upto - 1, defined);
        let seen = defined.union(names_of(before));
        if at < before.len() {
            lemma_fields_missing_mentioned(fields, upto - 1, defined, at);
            let i = choose|i: int|
                0 <= i < upto - 1 && i < fields.len() && (#[trigger] fields[i]).ty.mentions(
                    before[at],
                );
            assert(fields[i].ty.mentions(missing_in_fields(fields, upto, defined)[at]));
        } else {
            lemma_missing_mentioned(fields[upto - 1].ty, seen, at - before.len());
            assert(fields[upto - 1].ty.mentions(missing_in_fields(fields, upto, defined)[at]));
        }
    }
}

} // verus!
