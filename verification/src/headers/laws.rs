//! What holds of every run.

use crate::headers::declarations::{closed_parameters, declaration, signature, FunctionArg};
use crate::headers::layout::TypeLayout;
use crate::headers::order::{
    is_stable_order,
    lemma_increasing_unique,
    lemma_stable_order_exists,
    lemma_stable_order_walk,
    stable_order,
    walked,
};
use crate::headers::registry::{distinct_names, export_names, ordered, FfiExport};
use crate::headers::text::ends_with_char;
use crate::headers::{Builder, CargoEnv, Language};
use crate::headers::declarations::function_missing;
use crate::headers::definitions::{
    definitions_text,
    lemma_definitions_concat,
    lemma_names_concat,
    lemma_single_definition,
    missing_in_fields,
    names_of,
};
use crate::headers::layout::Composite;
use crate::headers::once::{
    composite_refers,
    defined_before_use,
    defined_earlier,
    defined_once,
    fields_mention,
    fields_refer,
    fields_well_nested,
    lemma_fields_missing_mentioned,
    lemma_fields_once,
    lemma_fields_ordered,
    lemma_fields_refer_defined,
    lemma_missing_mentioned,
    lemma_missing_once,
    lemma_missing_ordered,
    lemma_ordered_concat_under,
    lemma_once_concat,
    lemma_refers_defined,
    ordered_under,
};
use crate::headers::registry::{body_missing, body_text, lemma_fixed_names, names_admitted};
use vstd::prelude::*;
use vstd::seq_lib::to_multiset_contains;

verus! {

/// A stable header does not depend on the order of registration: two
/// snapshots that hold the same functions, each under a name of its own, are
/// written in the same order.
pub proof fn lemma_stable_order_deterministic(first: Seq<FfiExport>, second: Seq<FfiExport>)
    requires
        first.len() <= usize::MAX,
        distinct_names(first),
        distinct_names(second),
        first.to_multiset() == second.to_multiset(),
    ensures
        ordered(first, true) == ordered(second, true),
{
    let names1 = export_names(first);
    let names2 = export_names(second);
    assert(second.len() == first.len()) by {
        first.to_multiset_ensures();
        second.to_multiset_ensures();
    }
    lemma_stable_order_exists(names1);
    lemma_stable_order_exists(names2);
    let order1 = stable_order(names1);
    let order2 = stable_order(names2);
    lemma_stable_order_walk(names1, order1);
    lemma_stable_order_walk(names2, order2);
    let walk1 = walked(names1, order1);
    let walk2 = walked(names2, order2);
    assert forall|e: FfiExport| first.contains(e) <==> second.contains(e) by {
        to_multiset_contains(first, e);
        to_multiset_contains(second, e);
    }
    assert forall|x: Seq<char>| names1.contains(x) <==> names2.contains(x) by {
        if names1.contains(x) {
            let i = choose|i: int| 0 <= i < names1.len() && names1[i] == x;
            assert(first.contains(first[i]));
            let j = choose|j: int| 0 <= j < second.len() && second[j] == first[i];
            assert(names2[j] == x);
        }
        if names2.contains(x) {
            let j = choose|j: int| 0 <= j < names2.len() && names2[j] == x;
            assert(second.contains(second[j]));
            let i = choose|i: int| 0 <= i < first.len() && first[i] == second[j];
            assert(names1[i] == x);
        }
    }
    assert forall|x: Seq<char>| walk1.contains(x) <==> walk2.contains(x) by {
        assert(walk1.contains(x) <==> names1.contains(x));
        assert(walk2.contains(x) <==> names2.contains(x));
    }
    lemma_increasing_unique(walk1, walk2);
    let sorted1 = ordered(first, true);
    let sorted2 = ordered(second, true);
    assert(sorted1.len() == walk1.len());
    assert(sorted2.len() == walk2.len());
    assert forall|k: int| 0 <= k < sorted1.len() implies sorted1[k] == sorted2[k] by {
        assert(walk1[k] == walk2[k]);
        assert(order1[k] < names1.len());
        assert(order2[k] < names2.len());
        let e = first[order1[k] as int];
        assert(first.contains(e));
        let j = choose|j: int| 0 <= j < second.len() && second[j] == e;
        let at = order2[k] as int;
        assert(second[j].name@ == second[at].name@);
        if j < at {
            assert(second[j].name@ != second[at].name@);
        }
        if at < j {
            assert(second[at].name@ != second[j].name@);
        }
    }
    assert(sorted1 =~= sorted2);
}

/// Two runs in stable mode over the same functions, registered in whatever
/// order, write the same header.
pub proof fn lemma_stable_header_deterministic<W>(
    config: Builder<'_, W>,
    env: CargoEnv,
    first: Seq<FfiExport>,
    second: Seq<FfiExport>,
    names: Seq<Seq<char>>,
    defined: Set<Seq<char>>,
)
    requires
        config.stable(),
        first.len() <= usize::MAX,
        distinct_names(first),
        distinct_names(second),
        first.to_multiset() == second.to_multiset(),
    ensures
        config.header_text(env, first, names, defined) == config.header_text(
            env,
            second,
            names,
            defined,
        ),
{
    lemma_stable_order_deterministic(first, second);
}

/// Determinism: two runs in stable mode, under a fixed naming convention,
/// over snapshots that hold the same functions in whatever order, write the
/// same header.
pub proof fn lemma_stable_runs_agree<W>(
    config: Builder<'_, W>,
    env: CargoEnv,
    first: Seq<FfiExport>,
    second: Seq<FfiExport>,
    first_names: Seq<Seq<char>>,
    second_names: Seq<Seq<char>>,
    defined: Set<Seq<char>>,
)
    requires
        config.stable(),
        config.naming().is_fixed(),
        first.len() <= usize::MAX,
        distinct_names(first),
        distinct_names(second),
        first.to_multiset() == second.to_multiset(),
        names_admitted(config.naming(), ordered(first, true), first_names),
        names_admitted(config.naming(), ordered(second, true), second_names),
    ensures
        config.header_text(env, first, first_names, defined) == config.header_text(
            env,
            second,
            second_names,
            defined,
        ),
{
    lemma_stable_order_deterministic(first, second);
    lemma_fixed_names(config.naming(), ordered(first, true), first_names);
    lemma_fixed_names(config.naming(), ordered(second, true), second_names);
}

/// A function without arguments: C and the Python headers write `void`
/// between the parentheses, C# writes nothing there.
pub proof fn lemma_no_arguments(lang: Language, formatted: Seq<char>, ret_ty: TypeLayout)
    ensures
        signature(lang, formatted, Seq::<FunctionArg>::empty()) == formatted + " ("@,
        lang != Language::CSharp ==> declaration(
            lang,
            signature(lang, formatted, Seq::<FunctionArg>::empty()),
            ret_ty,
        ) == ret_ty.wrapping(lang, formatted + " ("@ + "void"@) + ");\n\n"@,
        lang == Language::CSharp ==> closed_parameters(
            lang,
            signature(lang, formatted, Seq::<FunctionArg>::empty()),
        ) == formatted + " ("@,
{
    reveal_strlit(" (");
    let opened = formatted + " ("@;
    assert(opened.last() == '(');
    assert(ends_with_char(opened, '('));
}

/// Whether the declaration of `export` names the composite type `name`, in
/// the type of an argument or in the return type.
pub open spec fn export_refers(export: FfiExport, name: Seq<char>) -> bool {
    export.ret_ty.refers_to(name) || fields_refer(export.args@, export.args@.len() as int, name)
}

/// Whether no composite type that `export` mentions is a part of a type of
/// its own name.
pub open spec fn export_well_nested(export: FfiExport) -> bool {
    &&& export.ret_ty.well_nested(Set::empty())
    &&& fields_well_nested(export.args@, export.args@.len() as int, Set::empty())
}

/// Whether every function of `order` is well nested.
pub open spec fn all_well_nested(order: Seq<FfiExport>) -> bool {
    forall|k: int| 0 <= k < order.len() ==> export_well_nested(#[trigger] order[k])
}

/// What a function misses is new to the run, and defined once.
pub proof fn lemma_function_once(
    args: Seq<FunctionArg>,
    ret_ty: TypeLayout,
    defined: Set<Seq<char>>,
)
    ensures
        defined_once(function_missing(args, ret_ty, defined), defined),
{
    let of_args = missing_in_fields(args, args.len() as int, defined);
    lemma_fields_once(args, args.len() as int, defined);
    lemma_missing_once(ret_ty, defined.union(names_of(of_args)));
    lemma_once_concat(of_args, ret_ty.missing(defined.union(names_of(of_args))), defined);
}

/// At most once: the body of a header defines no composite type twice, and
/// none that the run found defined, however many functions mention it.
pub proof fn lemma_body_defined_once(order: Seq<FfiExport>, upto: int, defined: Set<Seq<char>>)
    ensures
        defined_once(body_missing(order, upto, defined), defined),
    decreases upto,
{
    if 0 < upto <= order.len() {
        let before = body_missing(order, upto - 1, defined);
        lemma_body_defined_once(order, upto - 1, defined);
        lemma_function_once(
            order[upto - 1].args@,
            order[upto - 1].ret_ty,
            defined.union(names_of(before)),
        );
        lemma_once_concat(
            before,
            function_missing(
                order[upto - 1].args@,
                order[upto - 1].ret_ty,
                defined.union(names_of(before)),
            ),
            defined,
        );
    }
}

/// The definitions written for the first functions stay where they are when
/// more functions follow.
pub proof fn lemma_body_missing_prefix(
    order: Seq<FfiExport>,
    upto: int,
    len: int,
    defined: Set<Seq<char>>,
)
    requires
        0 <= upto <= len <= order.len(),
    ensures
        body_missing(order, upto, defined).len() <= body_missing(order, len, defined).len(),
        body_missing(order, len, defined).take(body_missing(order, upto, defined).len() as int)
            == body_missing(order, upto, defined),
    decreases len - upto,
{
    let short = body_missing(order, upto, defined);
    if upto == len {
        assert(short.take(short.len() as int) =~= short);
    } else {
        lemma_body_missing_prefix(order, upto, len - 1, defined);
        let before = body_missing(order, len - 1, defined);
        let full = body_missing(order, len, defined);
        assert(full.take(short.len() as int) =~= before.take(short.len() as int));
    }
}

/// Definition before use, of the declarations: when the declaration of a
/// function is written, the composite types that it names are defined. The
/// definitions that the first `k + 1` functions missed stand before the
/// declaration of the last of them.
pub proof fn lemma_defined_before_declaration(
    order: Seq<FfiExport>,
    k: int,
    defined: Set<Seq<char>>,
    name: Seq<char>,
)
    requires
        0 <= k < order.len(),
        export_refers(order[k], name),
    ensures
        defined.contains(name) || names_of(body_missing(order, k + 1, defined)).contains(name),
{
    let before = body_missing(order, k, defined);
    let seen = defined.union(names_of(before));
    let export = order[k];
    let of_args = missing_in_fields(export.args@, export.args@.len() as int, seen);
    let of_ret = export.ret_ty.missing(seen.union(names_of(of_args)));
    lemma_names_concat(of_args, of_ret);
    lemma_names_concat(before, of_args + of_ret);
    if export.ret_ty.refers_to(name) {
        lemma_refers_defined(export.ret_ty, seen.union(names_of(of_args)), name);
    } else {
        lemma_fields_refer_defined(export.args@, export.args@.len() as int, seen, name);
    }
}

/// Definition before use, of the definitions: in the body of a header whose
/// functions are well nested, each definition follows the definitions of
/// the composite types that its members name, unless the run found them
/// defined.
pub proof fn lemma_body_defined_before_use(
    order: Seq<FfiExport>,
    upto: int,
    defined: Set<Seq<char>>,
)
    requires
        all_well_nested(order),
    ensures
        defined_before_use(body_missing(order, upto, defined), defined),
    decreases upto,
{
    if 0 < upto <= order.len() {
        let before = body_missing(order, upto - 1, defined);
        let seen = defined.union(names_of(before));
        let export = order[upto - 1];
        let none = Set::<Seq<char>>::empty();
        assert(export_well_nested(export));
        lemma_body_defined_before_use(order, upto - 1, defined);
        let of_args = missing_in_fields(export.args@, export.args@.len() as int, seen);
        lemma_fields_ordered(export.args@, export.args@.len() as int, seen, none);
        lemma_missing_ordered(export.ret_ty, seen.union(names_of(of_args)), none);
        lemma_ordered_concat_under(
            of_args,
            export.ret_ty.missing(seen.union(names_of(of_args))),
            seen,
            none,
        );
        lemma_ordered_concat_under(
            before,
            function_missing(export.args@, export.ret_ty, seen),
            defined,
            none,
        );
    }
}

/// Exactly once: a composite type that a function names, and that the run
/// did not find defined, has one definition in the body of the header. The
/// definitions are the same in every language.
pub proof fn lemma_referenced_defined_once(
    order: Seq<FfiExport>,
    k: int,
    defined: Set<Seq<char>>,
    name: Seq<char>,
) -> (at: int)
    requires
        0 <= k < order.len(),
        export_refers(order[k], name),
        !defined.contains(name),
    ensures
        0 <= at < body_missing(order, order.len() as int, defined).len(),
        body_missing(order, order.len() as int, defined)[at].name@ == name,
        forall|other: int|
            0 <= other < body_missing(order, order.len() as int, defined).len() && (
            #[trigger] body_missing(order, order.len() as int, defined)[other]).name@ == name
                ==> other == at,
{
    let defs = body_missing(order, order.len() as int, defined);
    let early = body_missing(order, k + 1, defined);
    lemma_defined_before_declaration(order, k, defined, name);
    lemma_body_missing_prefix(order, k + 1, order.len() as int, defined);
    let at = choose|at: int| 0 <= at < early.len() && (#[trigger] early[at]).name@ == name;
    assert(defs.take(early.len() as int)[at] == defs[at]);
    lemma_body_defined_once(order, order.len() as int, defined);
    assert forall|other: int| 0 <= other < defs.len() && (#[trigger] defs[other]).name@
        == name implies other == at by {
        if other < at {
            assert(defined_earlier(defs, at, defs[at].name@));
        }
        if at < other {
            assert(defined_earlier(defs, other, defs[other].name@));
        }
    }
    at
}

/// The text of a batch of definitions, around the definition at `at`.
pub proof fn lemma_definitions_text_split(lang: Language, defs: Seq<Composite>, at: int)
    requires
        0 <= at < defs.len(),
    ensures
        definitions_text(lang, defs) == definitions_text(lang, defs.take(at)) + lang.struct_text(
            defs[at],
        ) + definitions_text(lang, defs.skip(at + 1)),
{
    let head = defs.take(at);
    let one = seq![defs[at]];
    let tail = defs.skip(at + 1);
    assert(defs =~= head + one + tail);
    lemma_definitions_concat(lang, head + one, tail);
    lemma_definitions_concat(lang, head, one);
    lemma_single_definition(lang, defs[at]);
}

/// The declaration that a run writes for the function at `k` of `order`.
pub open spec fn declaration_of(
    lang: Language,
    order: Seq<FfiExport>,
    names: Seq<Seq<char>>,
    k: int,
) -> Seq<char> {
    declaration(lang, signature(lang, names[k], order[k].args@), order[k].ret_ty)
}

/// What is written for the functions up to `upto`, in its parts: what was
/// written before, then the definitions, the documentation and the
/// declaration of the last function.
proof fn lemma_body_text_parts(
    lang: Language,
    order: Seq<FfiExport>,
    names: Seq<Seq<char>>,
    upto: int,
    defined: Set<Seq<char>>,
)
    requires
        0 < upto <= order.len(),
    ensures
        body_text(lang, order, names, upto, defined) == body_text(
            lang,
            order,
            names,
            upto - 1,
            defined,
        ) + definitions_text(
            lang,
            function_missing(
                order[upto - 1].args@,
                order[upto - 1].ret_ty,
                defined.union(names_of(body_missing(order, upto - 1, defined))),
            ),
        ) + lang.docs_text(order[upto - 1].docs@) + declaration_of(lang, order, names, upto - 1),
{
    let export = order[upto - 1];
    let seen = defined.union(names_of(body_missing(order, upto - 1, defined)));
    let written = body_text(lang, order, names, upto - 1, defined);
    let own = definitions_text(lang, function_missing(export.args@, export.ret_ty, seen));
    let docs = lang.docs_text(export.docs@);
    let declared = declaration_of(lang, order, names, upto - 1);
    assert(written + (own + docs + declared) =~= written + own + docs + declared);
}

/// Four pieces of text, the second of them in three parts, grouped around
/// the middle part.
proof fn lemma_regroup_own(
    written: Seq<char>,
    head: Seq<char>,
    mid: Seq<char>,
    tail: Seq<char>,
    docs: Seq<char>,
    declared: Seq<char>,
)
    ensures
        written + (head + mid + tail) + docs + declared == (written + head) + mid + (tail + docs)
            + declared,
{
    assert(written + (head + mid + tail) + docs + declared =~= (written + head) + mid + (tail
        + docs) + declared);
}

/// A text that holds `mid`, with more behind it, grouped around `mid`.
proof fn lemma_regroup_earlier(
    before: Seq<char>,
    mid: Seq<char>,
    after: Seq<char>,
    own: Seq<char>,
    docs: Seq<char>,
    declared: Seq<char>,
)
    ensures
        (before + mid + after) + own + docs + declared == before + mid + (after + own + docs)
            + declared,
{
    assert((before + mid + after) + own + docs + declared =~= before + mid + (after + own + docs)
        + declared);
}

/// A definition written for one of the first `upto` functions stands in the
/// text before the declaration of the last of them.
proof fn lemma_definition_located(
    lang: Language,
    order: Seq<FfiExport>,
    names: Seq<Seq<char>>,
    upto: int,
    defined: Set<Seq<char>>,
    name: Seq<char>,
) -> (found: (Composite, Seq<char>, Seq<char>))
    requires
        0 <= upto <= order.len(),
        names_of(body_missing(order, upto, defined)).contains(name),
    ensures
        found.0.name@ == name,
        body_text(lang, order, names, upto, defined) == found.1 + lang.struct_text(found.0)
            + found.2 + declaration_of(lang, order, names, upto - 1),
    decreases upto,
{
    if upto == 0 {
        assert(names_of(Seq::<Composite>::empty()) =~= Set::<Seq<char>>::empty());
        (arbitrary(), Seq::empty(), Seq::empty())
    } else {
        let earlier = body_missing(order, upto - 1, defined);
        let seen = defined.union(names_of(earlier));
        let export = order[upto - 1];
        let own = function_missing(export.args@, export.ret_ty, seen);
        let own_text = definitions_text(lang, own);
        let docs = lang.docs_text(export.docs@);
        let declared = declaration_of(lang, order, names, upto - 1);
        let written = body_text(lang, order, names, upto - 1, defined);
        lemma_names_concat(earlier, own);
        lemma_body_text_parts(lang, order, names, upto, defined);
        if names_of(earlier).contains(name) {
            let (composite, before, between) = lemma_definition_located(
                lang,
                order,
                names,
                upto - 1,
                defined,
                name,
            );
            let after = between + declaration_of(lang, order, names, upto - 2);
            assert(written =~= before + lang.struct_text(composite) + after);
            lemma_regroup_earlier(
                before,
                lang.struct_text(composite),
                after,
                own_text,
                docs,
                declared,
            );
            (composite, before, after + own_text + docs)
        } else {
            let at = choose|at: int| 0 <= at < own.len() && (#[trigger] own[at]).name@ == name;
            lemma_definitions_text_split(lang, own, at);
            let head = definitions_text(lang, own.take(at));
            let tail = definitions_text(lang, own.skip(at + 1));
            lemma_regroup_own(written, head, lang.struct_text(own[at]), tail, docs, declared);
            (own[at], written + head, tail + docs)
        }
    }
}

/// Definition before use, in the text: what a run has written when it has
/// declared a function holds, before the declaration, the full definition
/// of each composite type that the declaration names and that the run did
/// not find defined.
pub proof fn lemma_definition_precedes_declaration(
    lang: Language,
    order: Seq<FfiExport>,
    names: Seq<Seq<char>>,
    k: int,
    defined: Set<Seq<char>>,
    name: Seq<char>,
) -> (found: (Composite, Seq<char>, Seq<char>))
    requires
        0 <= k < order.len(),
        export_refers(order[k], name),
        !defined.contains(name),
    ensures
        found.0.name@ == name,
        body_text(lang, order, names, k + 1, defined) == found.1 + lang.struct_text(found.0)
            + found.2 + declaration_of(lang, order, names, k),
{
    lemma_defined_before_declaration(order, k, defined, name);
    lemma_definition_located(lang, order, names, k + 1, defined, name)
}

/// Whether the composite type `node` is a part of a type that `export`
/// takes or returns.
pub open spec fn export_mentions(export: FfiExport, node: Composite) -> bool {
    export.ret_ty.mentions(node) || fields_mention(export.args@, export.args@.len() as int, node)
}

/// Whether the composite type `node` is a part of a type that a function of
/// `order` takes or returns.
pub open spec fn snapshot_mentions(order: Seq<FfiExport>, node: Composite) -> bool {
    exists|k: int| 0 <= k < order.len() && export_mentions(#[trigger] order[k], node)
}

/// Whether a name stands for one type in all of `order`: whether two
/// composite types of one name have the same members.
pub open spec fn names_identify(order: Seq<FfiExport>) -> bool {
    forall|a: Composite, b: Composite|
        #![trigger snapshot_mentions(order, a), snapshot_mentions(order, b)]
        snapshot_mentions(order, a) && snapshot_mentions(order, b) && a.name@ == b.name@
            ==> a.fields@ == b.fields@
}

/// The definitions of the body are those of types that the functions
/// mention.
pub proof fn lemma_body_missing_mentioned(
    order: Seq<FfiExport>,
    upto: int,
    defined: Set<Seq<char>>,
    at: int,
)
    requires
        0 <= at < body_missing(order, upto, defined).len(),
    ensures
        snapshot_mentions(order, body_missing(order, upto, defined)[at]),
    decreases upto,
{
    if 0 < upto <= order.len() {
        let before = body_missing(order, upto - 1, defined);
        let seen = defined.union(names_of(before));
        let export = order[upto - 1];
        if at < before.len() {
            lemma_body_missing_mentioned(order, upto - 1, defined, at);
        } else {
            let of_args = missing_in_fields(export.args@, export.args@.len() as int, seen);
            let own = at - before.len();
            if own < of_args.len() {
                lemma_fields_missing_mentioned(
                    export.args@,
                    export.args@.len() as int,
                    seen,
                    own,
                );
            } else {
                lemma_missing_mentioned(
                    export.ret_ty,
                    seen.union(names_of(of_args)),
                    own - of_args.len(),
                );
            }
            assert(export_mentions(export, body_missing(order, upto, defined)[at]));
        }
    }
}

/// Whether every part of `ty` is a part of a type that a function of `order`
/// takes or returns.
pub open spec fn part_of_snapshot(order: Seq<FfiExport>, ty: TypeLayout) -> bool {
    forall|node: Composite| #[trigger] ty.mentions(node) ==> snapshot_mentions(order, node)
}

/// Where the types that a layout names are defined, all its parts are.
proof fn lemma_parts_defined(order: Seq<FfiExport>, ty: TypeLayout, node: Composite)
    requires
        all_well_nested(order),
        names_identify(order),
        part_of_snapshot(order, ty),
        forall|name: Seq<char>| #[trigger]
            ty.refers_to(name) ==> names_of(
                body_missing(order, order.len() as int, Set::empty()),
            ).contains(name),
        ty.mentions(node),
    ensures
        names_of(body_missing(order, order.len() as int, Set::empty())).contains(node.name@),
    decreases ty,
{
    let none = Set::<Seq<char>>::empty();
    let defs = body_missing(order, order.len() as int, none);
    match ty {
        TypeLayout::Primitive(_) => {},
        TypeLayout::Pointer { pointee, .. } => {
            assert forall|part: Composite| #[trigger] pointee.mentions(part) implies snapshot_mentions(
                order,
                part,
            ) by {
                assert(ty.mentions(part));
            }
            assert forall|name: Seq<char>| #[trigger] pointee.refers_to(name) implies names_of(
                defs,
            ).contains(name) by {
                assert(ty.refers_to(name));
            }
            lemma_parts_defined(order, *pointee, node);
        },
        TypeLayout::FixedArray { item, .. } => {
            assert forall|part: Composite| #[trigger] item.mentions(part) implies snapshot_mentions(
                order,
                part,
            ) by {
                assert(ty.mentions(part));
            }
            assert forall|name: Seq<char>| #[trigger] item.refers_to(name) implies names_of(
                defs,
            ).contains(name) by {
                assert(ty.refers_to(name));
            }
            lemma_parts_defined(order, *item, node);
        },
        TypeLayout::Composite(c) => {
            assert(ty.refers_to(c.name@));
            if c != node {
                let at = choose|at: int| 0 <= at < defs.len() && (#[trigger] defs[at]).name@ == c.name@;
                lemma_body_missing_mentioned(order, order.len() as int, none, at);
                assert(ty.mentions(c));
                assert(snapshot_mentions(order, c));
                assert(snapshot_mentions(order, defs[at]));
                assert(defs[at].fields@ == c.fields@);
                lemma_body_defined_before_use(order, order.len() as int, none);
                let i = choose|i: int|
                    0 <= i < c.fields@.len() && (#[trigger] c.fields@[i]).ty.mentions(node);
                let member = c.fields@[i].ty;
                assert forall|part: Composite| #[trigger] member.mentions(part) implies snapshot_mentions(
                    order,
                    part,
                ) by {
                    assert(ty.mentions(part));
                }
                assert forall|name: Seq<char>| #[trigger] member.refers_to(name) implies names_of(
                    defs,
                ).contains(name) by {
                    assert(defs[at].fields@[i].ty.refers_to(name));
                    assert(composite_refers(defs[at], name));
                    assert(defined_earlier(defs, at, name));
                    let j = choose|j: int|
                        0 <= j < at && j < defs.len() && (#[trigger] defs[j]).name@ == name;
                    assert(defs[j].name@ == name);
                }
                lemma_parts_defined(order, member, node);
            }
        },
    }
}

/// Exactly once, of every part: in a fresh run over well-nested functions
/// in which a name stands for one type, every composite type that is a part
/// of what a function takes or returns is defined in the body, and, as no
/// type is defined twice, once.
pub proof fn lemma_mentioned_defined(order: Seq<FfiExport>, node: Composite)
    requires
        all_well_nested(order),
        names_identify(order),
        snapshot_mentions(order, node),
    ensures
        names_of(body_missing(order, order.len() as int, Set::empty())).contains(node.name@),
        defined_once(body_missing(order, order.len() as int, Set::empty()), Set::empty()),
{
    let none = Set::<Seq<char>>::empty();
    let defs = body_missing(order, order.len() as int, none);
    lemma_body_defined_once(order, order.len() as int, none);
    let k = choose|k: int| 0 <= k < order.len() && export_mentions(#[trigger] order[k], node);
    let export = order[k];
    let ty = if export.ret_ty.mentions(node) {
        export.ret_ty
    } else {
        let i = choose|i: int|
            0 <= i < export.args@.len() && i < export.args@.len() && (
            #[trigger] export.args@[i]).ty.mentions(node);
        export.args@[i].ty
    };
    assert(ty.mentions(node));
    assert forall|part: Composite| #[trigger] ty.mentions(part) implies snapshot_mentions(
        order,
        part,
    ) by {
        assert(export_mentions(order[k], part));
    }
    assert forall|name: Seq<char>| #[trigger] ty.refers_to(name) implies names_of(defs).contains(
        name,
    ) by {
        assert(export_refers(order[k], name));
        lemma_defined_before_declaration(order, k, none, name);
        lemma_body_missing_prefix(order, k + 1, order.len() as int, none);
        let early = body_missing(order, k + 1, none);
        let at = choose|at: int| 0 <= at < early.len() && (#[trigger] early[at]).name@ == name;
        assert(defs.take(early.len() as int)[at] == defs[at]);
    }
    lemma_parts_defined(order, ty, node);
}

} // verus!
