//! The declaration of an exported function: its name, its arguments in
//! declared order, and its return type around both.

use crate::headers::definer::Definer;
use crate::headers::definitions::{
    define_fields,
    definitions_text,
    lemma_definitions_concat,
    missing_in_fields,
    names_of,
};
use crate::headers::layout::{Composite, Field, TypeLayout};
use crate::headers::naming::NamingConvention;
use crate::headers::text::{ends_with_char, str_ends_with_char, trim, trimmed};
use crate::headers::Language;
use vstd::prelude::*;
use vstd::string::*;

verus! {

/// An argument of an exported function is described like a member of a
/// composite type: by its name and its layout.
pub type FunctionArg = Field;

/// The annotation line that tells C# how to marshal an argument of type `ty`;
/// empty where the type needs none.
pub open spec fn marshal_attribute(ty: TypeLayout) -> Seq<char> {
    match ty.marshaler() {
        Some(m) => "[MarshalAs("@ + m + ")]\n        "@,
        None => Seq::empty(),
    }
}

/// The annotation line that tells C# how to marshal a returned value of type
/// `ty`; empty where the type needs none.
pub open spec fn return_marshal_attribute(ty: TypeLayout) -> Seq<char> {
    match ty.marshaler() {
        Some(m) => "[return: MarshalAs("@ + m + ")]\n    "@,
        None => Seq::empty(),
    }
}

/// `acc` with one more argument: a comma unless `acc` ends with the opening
/// parenthesis, then the declaration of the argument. C# puts each argument
/// on a line of its own, behind its marshaling annotation.
pub open spec fn with_arg(lang: Language, acc: Seq<char>, name: Seq<char>, ty: TypeLayout) -> Seq<
    char,
> {
    let first = ends_with_char(acc, '(');
    match lang {
        Language::CSharp => (if first {
            acc
        } else {
            acc + ","@
        }) + "\n        "@ + marshal_attribute(ty) + ty.wrapping(lang, name),
        _ => (if first {
            acc
        } else {
            acc + ", "@
        }) + ty.wrapping(lang, name),
    }
}

/// `acc` with the first `upto` of `args`, in declared order.
pub open spec fn with_args(
    lang: Language,
    acc: Seq<char>,
    args: Seq<FunctionArg>,
    upto: int,
) -> Seq<char>
    decreases upto,
{
    if upto <= 0 || upto > args.len() {
        acc
    } else {
        with_arg(
            lang,
            with_args(lang, acc, args, upto - 1),
            args[upto - 1].name@,
            args[upto - 1].ty,
        )
    }
}

/// The name of a function, the opening parenthesis and the arguments.
pub open spec fn signature(lang: Language, formatted: Seq<char>, args: Seq<FunctionArg>) -> Seq<
    char,
> {
    with_args(lang, formatted + " ("@, args, args.len() as int)
}

/// The parameter list closed, with the marker that C and the Python headers
/// ask for where there is no argument.
pub open spec fn closed_parameters(lang: Language, fname_and_args: Seq<char>) -> Seq<char> {
    if lang != Language::CSharp && ends_with_char(fname_and_args, '(') {
        fname_and_args + "void"@
    } else {
        fname_and_args
    }
}

/// The declaration of a function that returns `ret_ty`, around its name and
/// arguments, followed by an empty line.
pub open spec fn declaration(lang: Language, fname_and_args: Seq<char>, ret_ty: TypeLayout) -> Seq<
    char,
> {
    match lang {
        Language::CSharp => "public unsafe partial class Ffi {\n    "@ + return_marshal_attribute(
            ret_ty,
        ) + "[DllImport(RustLib, ExactSpelling = true)] public static unsafe extern\n    "@
            + ret_ty.wrapping(lang, fname_and_args) + ");\n}\n\n"@,
        _ => ret_ty.wrapping(lang, closed_parameters(lang, fname_and_args)) + ");\n\n"@,
    }
}

/// The composite types that a function with these arguments and this return
/// type misses: those of the arguments, in declared order, then those of the
/// return type.
pub open spec fn function_missing(
    args: Seq<FunctionArg>,
    ret_ty: TypeLayout,
    defined: Set<Seq<char>>,
) -> Seq<Composite> {
    let of_args = missing_in_fields(args, args.len() as int, defined);
    of_args + ret_ty.missing(defined.union(names_of(of_args)))
}

/// Everything that a function adds to the header: the definitions that it
/// misses, its documentation and its declaration under the name `formatted`.
pub open spec fn function_text(
    lang: Language,
    formatted: Seq<char>,
    docs: Seq<String>,
    args: Seq<FunctionArg>,
    ret_ty: TypeLayout,
    defined: Set<Seq<char>>,
) -> Seq<char> {
    definitions_text(lang, function_missing(args, ret_ty, defined)) + lang.docs_text(docs)
        + declaration(lang, signature(lang, formatted, args), ret_ty)
}

/// Appends the name of the function, as `naming` spells it once the white
/// space around it is removed, and the opening parenthesis.
pub fn name(out: &mut String, f_name: &str, lang: Language, naming: &NamingConvention)
    ensures
        exists|formatted: Seq<char>| #[trigger]
            naming.admits(trimmed(f_name@), formatted) && final(out)@ == old(out)@ + formatted
                + " ("@,
{
    let bare = trim(f_name);
    let formatted = naming.apply(bare.as_str());
    out.append(formatted.as_str());
    // Every language opens the parameter list in the same way.
    match lang {
        Language::C => out.append(" ("),
        Language::CSharp => out.append(" ("),
        Language::Python => out.append(" ("),
    }
    proof {
        assert(naming.admits(trimmed(f_name@), formatted@));
    }
}

/// Appends one argument to the name and the arguments rendered so far.
pub fn arg(out: &mut String, arg_name: &str, ty: &TypeLayout, lang: Language)
    ensures
        final(out)@ == with_arg(lang, old(out)@, arg_name@, *ty),
{
    let first = str_ends_with_char(out.as_str(), '(');
    match lang {
        Language::CSharp => {
            if !first {
                out.append(",");
            }
            out.append("\n        ");
            let ghost before = out@;
            match ty.csharp_marshaler() {
                Some(m) => {
                    out.append("[MarshalAs(");
                    out.append(m.as_str());
                    out.append(")]\n        ");
                    proof {
                        assert(out@ =~= before + marshal_attribute(*ty));
                    }
                },
                None => {
                    proof {
                        assert(out@ =~= before + marshal_attribute(*ty));
                    }
                },
            }
            out.append(ty.name_wrapping_var(lang, arg_name).as_str());
        },
        _ => {
            if !first {
                out.append(", ");
            }
            out.append(ty.name_wrapping_var(lang, arg_name).as_str());
        },
    }
}

/// Writes the declaration of a function that returns `ty`, around its name
/// and arguments.
pub fn ret<D: Definer>(definer: &mut D, lang: Language, ty: &TypeLayout, fname_and_args: String)
    ensures
        final(definer).written() == old(definer).written() + declaration(
            lang,
            fname_and_args@,
            *ty,
        ),
        final(definer).defined() == old(definer).defined(),
{
    let mut fname_and_args = fname_and_args;
    let ghost given = fname_and_args@;
    let mut text = String::new();
    match lang {
        Language::CSharp => {
            text.append("public unsafe partial class Ffi {\n    ");
            let ghost before = text@;
            match ty.csharp_marshaler() {
                Some(m) => {
                    text.append("[return: MarshalAs(");
                    text.append(m.as_str());
                    text.append(")]\n    ");
                    proof {
                        assert(text@ =~= before + return_marshal_attribute(*ty));
                    }
                },
                None => {
                    proof {
                        assert(text@ =~= before + return_marshal_attribute(*ty));
                    }
                },
            }
            text.append(
                "[DllImport(RustLib, ExactSpelling = true)] public static unsafe extern\n    ",
            );
            text.append(ty.name_wrapping_var(lang, fname_and_args.as_str()).as_str());
            text.append(");\n}\n\n");
        },
        _ => {
            if str_ends_with_char(fname_and_args.as_str(), '(') {
                fname_and_args.append("void");
            }
            proof {
                assert(fname_and_args@ == closed_parameters(lang, given));
            }
            text.append(ty.name_wrapping_var(lang, fname_and_args.as_str()).as_str());
            text.append(");\n\n");
        },
    }
    proof {
        assert(text@ =~= declaration(lang, given, *ty));
    }
    let sink = definer.out();
    sink.append(text.as_str());
}

/// The renderer of one target language, with the naming convention of the
/// run.
pub struct Backend<'a> {
    pub language: Language,
    pub naming: &'a NamingConvention,
}

impl<'a> Backend<'a> {
    /// Writes an exported function: first the definitions of the composite
    /// types that its arguments and its return type mention and that are not
    /// defined yet, then its documentation, then its declaration.
    pub fn emit_function<D: Definer>(
        &self,
        definer: &mut D,
        docs: &Vec<String>,
        fname: &str,
        args: &Vec<FunctionArg>,
        ret_ty: &TypeLayout,
    )
        ensures
            exists|formatted: Seq<char>| #[trigger]
                self.naming.admits(trimmed(fname@), formatted) && final(definer).written()
                    == old(definer).written() + function_text(
                    self.language,
                    formatted,
                    docs@,
                    args@,
                    *ret_ty,
                    old(definer).defined(),
                ),
            final(definer).defined() == old(definer).defined().union(
                names_of(function_missing(args@, *ret_ty, old(definer).defined())),
            ),
    {
        let lang = self.language;
        let ghost before = definer.defined();
        let ghost text = definer.written();
        define_fields(args, lang, definer);
        ret_ty.define_self(lang, definer);
        proof {
            let of_args = missing_in_fields(args@, args@.len() as int, before);
            let of_ret = ret_ty.missing(before.union(names_of(of_args)));
            lemma_definitions_concat(lang, of_args, of_ret);
            assert(before.union(names_of(of_args)).union(names_of(of_ret)) =~= before.union(
                names_of(of_args).union(names_of(of_ret)),
            ));
            assert(definer.written() =~= text + definitions_text(
                lang,
                function_missing(args@, *ret_ty, before),
            ));
        }
        let rendered_docs = lang.render_docs(docs);
        let sink = definer.out();
        sink.append(rendered_docs.as_str());

        let mut fname_and_args = String::new();
        name(&mut fname_and_args, fname, lang, self.naming);
        let ghost formatted = choose|formatted: Seq<char>| #[trigger]
            self.naming.admits(trimmed(fname@), formatted) && fname_and_args@ == Seq::<
                char,
            >::empty() + formatted + " ("@;
        proof {
            assert(fname_and_args@ =~= formatted + " ("@);
        }
        let mut i: usize = 0;
        while i < args.len()
            invariant
                i <= args.len(),
                fname_and_args@ == with_args(lang, formatted + " ("@, args@, i as int),
            decreases args.len() - i,
        {
            arg(&mut fname_and_args, args[i].name.as_str(), &args[i].ty, lang);
            i += 1;
        }
        ret(definer, lang, ret_ty, fname_and_args);
        proof {
            assert(self.naming.admits(trimmed(fname@), formatted));
            assert(definer.written() =~= text + function_text(
                lang,
                formatted,
                docs@,
                args@,
                *ret_ty,
                before,
            ));
        }
    }
}

/// Writes an exported function in `lang`, under its own name.
pub fn __define_fn__<D: Definer>(
    definer: &mut D,
    lang: Language,
    docs: &Vec<String>,
    fname: &str,
    args: &Vec<FunctionArg>,
    ret_ty: &TypeLayout,
)
    ensures
        final(definer).written() == old(definer).written() + function_text(
            lang,
            trimmed(fname@),
            docs@,
            args@,
            *ret_ty,
            old(definer).defined(),
        ),
        final(definer).defined() == old(definer).defined().union(
            names_of(function_missing(args@, *ret_ty, old(definer).defined())),
        ),
{
    let naming = NamingConvention::Default;
    let backend = Backend { language: lang, naming: &naming };
    backend.emit_function(definer, docs, fname, args, ret_ty);
}

} // verus!
