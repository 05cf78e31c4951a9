//! C headers generation.
//!
//! A run takes a snapshot of the exported functions, picks the order in which
//! they are written, and renders each of them in the chosen [`Language`]
//! through a [`Definer`], which makes sure that every composite type the
//! functions mention is defined once, before its first use.
//!
//! The header is written in four phases: the banner, the prelude of the
//! language, the functions with the types they need, and the epilogue.

pub mod text;
pub mod layout;
pub mod definer;
pub mod languages;
pub mod definitions;
pub mod naming;
pub mod declarations;
pub mod order;
pub mod registry;
pub mod once;
pub mod laws;

pub use crate::headers::declarations::{Backend, FunctionArg, __define_fn__};
pub use crate::headers::definitions::__define_self__;
pub use crate::headers::definer::{Definer, HashSetDefiner};
pub use crate::headers::layout::{Composite, Field, Primitive, TypeLayout};
pub use crate::headers::naming::{NameTransform, NamingConvention};
pub use crate::headers::registry::FfiExport;

use crate::headers::definitions::names_of;
use crate::headers::registry::{
    body_missing,
    body_text,
    lemma_body_text_names,
    names_admitted,
    order_of,
    ordered,
};
use crate::headers::text::{
    ascii_alphanumeric,
    ascii_upper,
    chars_of,
    is_ascii_alphanumeric,
    replace_char,
    replaced,
    to_ascii_upper,
    trimmed,
};
use vstd::prelude::*;
use vstd::string::*;

verus! {

/// Language of the generated headers.
#[derive(Debug, Copy, Clone, PartialEq, Eq, Structural)]
pub enum Language {
    /// C, _lingua franca_ of FFI interop.
    C,
    /// C#
    CSharp,
    /// Python (experimental): the declarations are written as C ones.
    Python,
}

/// Why a header could not be generated.
#[derive(Debug, Copy, Clone, PartialEq, Eq, Structural)]
pub enum HeaderError {
    /// The header needs the name of the library, and neither
    /// `CARGO_CRATE_NAME` nor `CARGO_PKG_NAME` was set.
    MissingLibraryName,
}

/// What the environment says of the library that the header is generated
/// for.
pub struct CargoEnv {
    /// The value of `CARGO_CRATE_NAME`, if it is set.
    pub crate_name: Option<String>,
    /// The value of `CARGO_PKG_NAME`, if it is set.
    pub pkg_name: Option<String>,
}

impl CargoEnv {
    /// The name of the library: the crate's name, or else the package's name
    /// with `_` for `-`.
    pub open spec fn lib_name(&self) -> Option<Seq<char>> {
        match self.crate_name {
            Some(name) => Some(name@),
            None => match self.pkg_name {
                Some(name) => Some(replaced(name@, '-', '_')),
                None => None,
            },
        }
    }
}

/// The banner of a header whose builder was given none.
pub const DEFAULT_BANNER: &'static str =
    "/*! \\file */\n/*******************************************\n *                                         *\n *  File auto-generated by `::safer_ffi`.  *\n *                                         *\n *  Do not manually edit this file.        *\n *                                         *\n *******************************************/\n";

/// What a C# header holds between the name of its namespace and the name of
/// the library.
pub const CSHARP_PREAMBLE: &'static str =
    " {\nusing System;\nusing System.Runtime.InteropServices;\n\npublic unsafe partial class Ffi {\n    private const string RustLib = \"";

/// What a character of the library's name becomes in the default guard: a
/// letter its upper-case form, a digit itself, anything else `_`.
pub open spec fn guard_char(c: char) -> char {
    if ascii_alphanumeric(c) {
        ascii_upper(c)
    } else {
        '_'
    }
}

/// The guard of a header whose builder was given none, for the library
/// `lib_name`.
pub open spec fn default_guard(lib_name: Seq<char>) -> Seq<char> {
    "__RUST_"@ + Seq::new(lib_name.len(), |i: int| guard_char(lib_name[i])) + "__"@
}

/// The rest of a name in PascalCase: `_` is dropped, and the character
/// after one (`upper_next`) is the upper-case form of what was there.
pub open spec fn pascal_from(name: Seq<char>, upper_next: bool) -> Seq<char>
    decreases name.len(),
{
    if name.len() == 0 {
        Seq::empty()
    } else if upper_next {
        seq![ascii_upper(name.first())] + pascal_from(name.drop_first(), false)
    } else if name.first() == '_' {
        pascal_from(name.drop_first(), true)
    } else {
        seq![name.first()] + pascal_from(name.drop_first(), false)
    }
}

/// `name` in PascalCase (UpperCamelCase).
pub open spec fn pascal_cased(name: Seq<char>) -> Seq<char> {
    pascal_from(name, true)
}

/// Marks a builder that has no output destination yet.
pub struct WhereTo;

impl Default for WhereTo {
    fn default() -> (marker: Self) {
        WhereTo
    }
}

/// The configuration of a run. Every setting is optional.
pub struct Builder<'a, W> {
    /// Where the header goes.
    pub target: W,
    /// The name of the `ifndef` guard of the header file.
    pub guard: Option<&'a str>,
    /// The banner of the generated header file.
    pub banner: Option<&'a str>,
    /// The [`Language`] of the generated headers.
    pub language: Option<Language>,
    /// How the generated functions are named.
    pub naming_convention: Option<NamingConvention>,
    /// Whether to yield a stable header or not (order of defined items
    /// guaranteed not to change provided the source code doesn't change
    /// either).
    pub stable_header: Option<bool>,
}

/// A builder with every setting at its default, and no output destination.
pub fn builder<'a>() -> (fresh: Builder<'a, WhereTo>)
    ensures
        fresh.guard is None,
        fresh.banner is None,
        fresh.language is None,
        fresh.naming_convention is None,
        fresh.stable_header is None,
{
    Builder {
        target: WhereTo,
        guard: None,
        banner: None,
        language: None,
        naming_convention: None,
        stable_header: None,
    }
}

impl<'a> Default for Builder<'a, WhereTo> {
    fn default() -> (fresh: Self)
        ensures
            fresh.guard is None,
            fresh.banner is None,
            fresh.language is None,
            fresh.naming_convention is None,
            fresh.stable_header is None,
    {
        builder()
    }
}

impl<'a, W> Builder<'a, W> {
    /// Sets up the name of the `ifndef` guard of the header file.
    ///
    /// It defaults to `__RUST_<NAME>__`, where `<NAME>` is the name of the
    /// library in upper case, with `_` for what is no letter or digit.
    pub fn with_guard(self, guard: &'a str) -> (next: Self)
        ensures
            next.guard == Some(guard),
            next.target == self.target,
            next.banner == self.banner,
            next.language == self.language,
            next.naming_convention == self.naming_convention,
            next.stable_header == self.stable_header,
    {
        Builder {
            target: self.target,
            guard: Some(guard),
            banner: self.banner,
            language: self.language,
            naming_convention: self.naming_convention,
            stable_header: self.stable_header,
        }
    }

    /// Sets up the banner of the generated header file.
    ///
    /// It defaults to a comment that says that the file was generated and is
    /// not to be edited.
    pub fn with_banner(self, banner: &'a str) -> (next: Self)
        ensures
            next.banner == Some(banner),
            next.target == self.target,
            next.guard == self.guard,
            next.language == self.language,
            next.naming_convention == self.naming_convention,
            next.stable_header == self.stable_header,
    {
        Builder {
            target: self.target,
            guard: self.guard,
            banner: Some(banner),
            language: self.language,
            naming_convention: self.naming_convention,
            stable_header: self.stable_header,
        }
    }

    /// Sets the [`Language`] of the generated headers.
    ///
    /// It defaults to [`Language::C`].
    pub fn with_language(self, language: Language) -> (next: Self)
        ensures
            next.language == Some(language),
            next.target == self.target,
            next.guard == self.guard,
            next.banner == self.banner,
            next.naming_convention == self.naming_convention,
            next.stable_header == self.stable_header,
    {
        Builder {
            target: self.target,
            guard: self.guard,
            banner: self.banner,
            language: Some(language),
            naming_convention: self.naming_convention,
            stable_header: self.stable_header,
        }
    }

    /// Sets how the generated functions are named.
    pub fn with_naming_convention(self, naming_convention: NamingConvention) -> (next: Self)
        ensures
            next.naming_convention == Some(naming_convention),
            next.target == self.target,
            next.guard == self.guard,
            next.banner == self.banner,
            next.language == self.language,
            next.stable_header == self.stable_header,
    {
        Builder {
            target: self.target,
            guard: self.guard,
            banner: self.banner,
            language: self.language,
            naming_convention: Some(naming_convention),
            stable_header: self.stable_header,
        }
    }

    /// Whether to yield a stable header or not.
    ///
    /// It defaults to `true`.
    pub fn with_stable_header(self, stable_header: bool) -> (next: Self)
        ensures
            next.stable_header == Some(stable_header),
            next.target == self.target,
            next.guard == self.guard,
            next.banner == self.banner,
            next.language == self.language,
            next.naming_convention == self.naming_convention,
    {
        Builder {
            target: self.target,
            guard: self.guard,
            banner: self.banner,
            language: self.language,
            naming_convention: self.naming_convention,
            stable_header: Some(stable_header),
        }
    }

    /// Parts the output destination from the configuration.
    pub fn into_parts(self) -> (parts: (W, Builder<'a, WhereTo>))
        ensures
            parts.0 == self.target,
            parts.1.guard == self.guard,
            parts.1.banner == self.banner,
            parts.1.language == self.language,
            parts.1.naming_convention == self.naming_convention,
            parts.1.stable_header == self.stable_header,
    {
        (
            self.target,
            Builder {
                target: WhereTo,
                guard: self.guard,
                banner: self.banner,
                language: self.language,
                naming_convention: self.naming_convention,
                stable_header: self.stable_header,
            },
        )
    }

    /// The language of the run.
    pub open spec fn lang(&self) -> Language {
        match self.language {
            Some(language) => language,
            None => Language::C,
        }
    }

    /// The naming convention of the run.
    pub open spec fn naming(&self) -> NamingConvention {
        match self.naming_convention {
            Some(naming) => naming,
            None => NamingConvention::Default,
        }
    }

    /// Whether the run sorts the functions by name.
    pub open spec fn stable(&self) -> bool {
        match self.stable_header {
            Some(stable) => stable,
            None => true,
        }
    }

    /// Whether the header cannot be written without the name of the
    /// library: a C# header always needs it, a C header for its guard, where
    /// none was given.
    pub open spec fn needs_lib_name(&self) -> bool {
        match self.lang() {
            Language::C => self.guard is None,
            Language::CSharp => true,
            Language::Python => false,
        }
    }

    /// The guard of the header.
    pub open spec fn guard_text(&self, env: CargoEnv) -> Seq<char> {
        match self.guard {
            Some(guard) => guard@,
            None => default_guard(env.lib_name().unwrap()),
        }
    }

    /// What the banner phase writes: the banner and a line feed.
    pub open spec fn banner_text(&self) -> Seq<char> {
        (match self.banner {
            Some(banner) => banner@,
            None => DEFAULT_BANNER@,
        }) + "\n"@
    }

    /// What the prelude phase writes.
    pub open spec fn prelude_text(&self, env: CargoEnv) -> Seq<char> {
        match self.lang() {
            Language::C => "#ifndef "@ + self.guard_text(env) + "\n#define "@ + self.guard_text(env)
                + "\n\n\n"@,
            Language::CSharp => "namespace "@ + pascal_cased(env.lib_name().unwrap())
                + CSHARP_PREAMBLE@
                + env.lib_name().unwrap() + "\";\n}\n\n"@,
            Language::Python => Seq::empty(),
        }
    }

    /// What the epilogue phase writes.
    pub open spec fn epilogue_text(&self, env: CargoEnv) -> Seq<char> {
        match self.lang() {
            Language::C => "\n#endif /* "@ + self.guard_text(env) + " */\n"@,
            Language::CSharp => "\n} /* "@ + pascal_cased(env.lib_name().unwrap()) + " */\n"@,
            Language::Python => Seq::empty(),
        }
    }

    /// The whole header of `exports`, written under the names `names` in a
    /// run that found `defined` already defined: banner, prelude, body and
    /// epilogue, in this order.
    pub open spec fn header_text(
        &self,
        env: CargoEnv,
        exports: Seq<FfiExport>,
        names: Seq<Seq<char>>,
        defined: Set<Seq<char>>,
    ) -> Seq<char> {
        let order = ordered(exports, self.stable());
        self.banner_text() + self.prelude_text(env) + body_text(
            self.lang(),
            order,
            names,
            order.len() as int,
            defined,
        ) + self.epilogue_text(env)
    }
}

impl<'a> Builder<'a, WhereTo> {
    /// Specify the "stream" where the headers will be written to.
    pub fn to_writer<W>(self, out: W) -> (next: Builder<'a, W>)
        ensures
            next.target == out,
            next.guard == self.guard,
            next.banner == self.banner,
            next.language == self.language,
            next.naming_convention == self.naming_convention,
            next.stable_header == self.stable_header,
    {
        Builder {
            target: out,
            guard: self.guard,
            banner: self.banner,
            language: self.language,
            naming_convention: self.naming_convention,
            stable_header: self.stable_header,
        }
    }

    /// More customizable version of the generation of a header.
    ///
    /// With this call, one can provide a custom implementation of a
    /// [`Definer`], which can be useful for mock tests, mainly.
    ///
    /// Where the header needs the name of the library and `env` has none,
    /// nothing is written.
    pub fn generate_with_definer<D: Definer>(
        self,
        definer: &mut D,
        exports: &Vec<FfiExport>,
        env: &CargoEnv,
    ) -> (result: Result<(), HeaderError>)
        ensures
            result is Err <==> self.needs_lib_name() && env.lib_name() is None,
            result is Err ==> final(definer).written() == old(definer).written(),
            result is Err ==> final(definer).defined() == old(definer).defined(),
            result is Ok ==> exists|names: Seq<Seq<char>>|
                names_admitted(self.naming(), ordered(exports@, self.stable()), names)
                    && final(definer).written() == old(definer).written()
                    + #[trigger] self.header_text(*env, exports@, names, old(definer).defined()),
            result is Ok ==> final(definer).defined() == old(definer).defined().union(
                names_of(
                    body_missing(
                        ordered(exports@, self.stable()),
                        ordered(exports@, self.stable()).len() as int,
                        old(definer).defined(),
                    ),
                ),
            ),
    {
        let config = self;
        let lang = config.language.unwrap_or(Language::C);
        let needs_lib_name = match lang {
            Language::C => config.guard.is_none(),
            Language::CSharp => true,
            Language::Python => false,
        };
        if needs_lib_name && env.crate_name.is_none() && env.pkg_name.is_none() {
            return Err(HeaderError::MissingLibraryName);
        }
        let ghost text = definer.written();
        let ghost defined = definer.defined();
        // Banner
        config.write_banner(definer);
        // Prelude
        match config.write_prelude(definer, env) {
            Ok(()) => {},
            Err(e) => {
                return Err(e);
            },
        }
        /* User-provided defs! */
        config.write_body(definer, exports);
        let ghost order = ordered(exports@, config.stable());
        let ghost names = choose|names: Seq<Seq<char>>|
            names_admitted(config.naming(), order, names) && definer.written() == text
                + config.banner_text() + config.prelude_text(*env) + #[trigger] body_text(
                config.lang(),
                order,
                names,
                order.len() as int,
                defined,
            );
        // Epilogue
        match config.write_epilogue(definer, env) {
            Ok(()) => {},
            Err(e) => {
                return Err(e);
            },
        }
        proof {
            assert(definer.written() =~= text + config.header_text(*env, exports@, names, defined));
        }
        Ok(())
    }

    /// Writes the banner and a line feed.
    pub fn write_banner<D: Definer>(&self, definer: &mut D)
        ensures
            final(definer).written() == old(definer).written() + self.banner_text(),
            final(definer).defined() == old(definer).defined(),
    {
        let banner: &str = match self.banner {
            Some(banner) => banner,
            None => DEFAULT_BANNER,
        };
        let ghost before = definer.written();
        let sink = definer.out();
        sink.append(banner);
        sink.append("\n");
        proof {
            assert(before + banner@ + "\n"@ =~= before + (banner@ + "\n"@));
        }
    }

    /// Writes what opens a header in the language of the run: the guard of
    /// a C header, the namespace and the library's name of a C# one.
    pub fn write_prelude<D: Definer>(&self, definer: &mut D, env: &CargoEnv) -> (result: Result<
        (),
        HeaderError,
    >)
        ensures
            result is Err <==> self.needs_lib_name() && env.lib_name() is None,
            result is Err ==> final(definer).written() == old(definer).written(),
            result is Ok ==> final(definer).written() == old(definer).written()
                + self.prelude_text(*env),
            final(definer).defined() == old(definer).defined(),
    {
        let lang = self.language.unwrap_or(Language::C);
        let mut text = String::new();
        match lang {
            Language::C => {
                let guard = match self.guard(env) {
                    Ok(guard) => guard,
                    Err(e) => {
                        return Err(e);
                    },
                };
                text.append("#ifndef ");
                text.append(guard.as_str());
                text.append("\n#define ");
                text.append(guard.as_str());
                text.append("\n\n\n");
            },
            Language::CSharp => {
                let name_space = match Self::pascal_cased_lib_name(env) {
                    Ok(name) => name,
                    Err(e) => {
                        return Err(e);
                    },
                };
                let rust_lib = match Self::lib_name(env) {
                    Ok(name) => name,
                    Err(e) => {
                        return Err(e);
                    },
                };
                text.append("namespace ");
                text.append(name_space.as_str());
                text.append(CSHARP_PREAMBLE);
                text.append(rust_lib.as_str());
                text.append("\";\n}\n\n");
            },
            Language::Python => {},
        }
        proof {
            assert(text@ =~= self.prelude_text(*env));
        }
        let sink = definer.out();
        sink.append(text.as_str());
        Ok(())
    }

    /// Heart of the generation: write the items in the header, each
    /// function behind the types that it needs and that are not defined yet.
    pub fn write_body<D: Definer>(&self, definer: &mut D, exports: &Vec<FfiExport>)
        ensures
            exists|names: Seq<Seq<char>>|
                names_admitted(self.naming(), ordered(exports@, self.stable()), names)
                    && final(definer).written() == old(definer).written() + #[trigger] body_text(
                    self.lang(),
                    ordered(exports@, self.stable()),
                    names,
                    ordered(exports@, self.stable()).len() as int,
                    old(definer).defined(),
                ),
            final(definer).defined() == old(definer).defined().union(
                names_of(
                    body_missing(
                        ordered(exports@, self.stable()),
                        ordered(exports@, self.stable()).len() as int,
                        old(definer).defined(),
                    ),
                ),
            ),
    {
        let stable_header = self.stable_header.unwrap_or(true);
        let lang = self.language.unwrap_or(Language::C);
        let default_naming = NamingConvention::Default;
        let naming_convention = match &self.naming_convention {
            Some(naming) => naming,
            None => &default_naming,
        };
        let backend = Backend { language: lang, naming: naming_convention };
        let order = order_of(exports, stable_header);
        let ghost sorted = ordered(exports@, stable_header);
        let ghost text = definer.written();
        let ghost defined = definer.defined();
        let ghost mut names: Seq<Seq<char>> = Seq::empty();
        proof {
            assert(defined.union(names_of(Seq::empty())) =~= defined);
        }
        let mut k: usize = 0;
        while k < order.len()
            invariant
                k <= order.len(),
                sorted.len() == order@.len(),
                forall|j: int|
                    0 <= j < order@.len() ==> (#[trigger] order@[j]) < exports@.len() && sorted[j]
                        == exports@[order@[j] as int],
                backend.language == lang,
                *backend.naming == self.naming(),
                names.len() == k,
                forall|j: int|
                    0 <= j < k ==> self.naming().admits(
                        trimmed(sorted[j].name@),
                        #[trigger] names[j],
                    ),
                definer.written() == text + body_text(lang, sorted, names, k as int, defined),
                definer.defined() == defined.union(
                    names_of(body_missing(sorted, k as int, defined)),
                ),
            decreases order.len() - k,
        {
            let export = &exports[order[k]];
            let ghost before = definer.written();
            let ghost seen = definer.defined();
            backend.emit_function(
                definer,
                &export.docs,
                export.name.as_str(),
                &export.args,
                &export.ret_ty,
            );
            proof {
                let formatted = choose|formatted: Seq<char>| #[trigger]
                    backend.naming.admits(trimmed(export.name@), formatted) && definer.written()
                        == before + crate::headers::declarations::function_text(
                        lang,
                        formatted,
                        export.docs@,
                        export.args@,
                        export.ret_ty,
                        seen,
                    );
                let longer = names.push(formatted);
                lemma_body_text_names(lang, sorted, names, longer, k as int, defined);
                let sofar = body_missing(sorted, k as int, defined);
                let more = crate::headers::declarations::function_missing(
                    export.args@,
                    export.ret_ty,
                    seen,
                );
                crate::headers::definitions::lemma_definitions_concat(lang, sofar, more);
                assert(defined.union(names_of(sofar)).union(names_of(more)) =~= defined.union(
                    names_of(sofar).union(names_of(more)),
                ));
                assert(definer.written() =~= text + body_text(
                    lang,
                    sorted,
                    longer,
                    k + 1,
                    defined,
                ));
                names = longer;
            }
            k += 1;
        }
        proof {
            assert(lang == self.lang());
            assert(stable_header == self.stable());
            assert(names_admitted(self.naming(), sorted, names));
            assert(definer.written() == text + body_text(
                self.lang(),
                ordered(exports@, self.stable()),
                names,
                ordered(exports@, self.stable()).len() as int,
                defined,
            ));
        }
    }

    /// Writes what closes a header in the language of the run.
    pub fn write_epilogue<D: Definer>(&self, definer: &mut D, env: &CargoEnv) -> (result: Result<
        (),
        HeaderError,
    >)
        ensures
            result is Err <==> self.needs_lib_name() && env.lib_name() is None,
            result is Err ==> final(definer).written() == old(definer).written(),
            result is Ok ==> final(definer).written() == old(definer).written()
                + self.epilogue_text(*env),
            final(definer).defined() == old(definer).defined(),
    {
        let lang = self.language.unwrap_or(Language::C);
        let mut text = String::new();
        match lang {
            Language::C => {
                let guard = match self.guard(env) {
                    Ok(guard) => guard,
                    Err(e) => {
                        return Err(e);
                    },
                };
                text.append("\n#endif /* ");
                text.append(guard.as_str());
                text.append(" */\n");
            },
            Language::CSharp => {
                let pkg_name = match Self::pascal_cased_lib_name(env) {
                    Ok(name) => name,
                    Err(e) => {
                        return Err(e);
                    },
                };
                text.append("\n} /* ");
                text.append(pkg_name.as_str());
                text.append(" */\n");
            },
            Language::Python => {},
        }
        proof {
            assert(text@ =~= self.epilogue_text(*env));
        }
        let sink = definer.out();
        sink.append(text.as_str());
        Ok(())
    }

    /// The guard of the header: the one that was set up, or else the one
    /// derived from the name of the library.
    pub fn guard(&self, env: &CargoEnv) -> (result: Result<String, HeaderError>)
        ensures
            result is Err <==> self.guard is None && env.lib_name() is None,
            result matches Ok(guard) ==> guard@ == self.guard_text(*env),
    {
        match self.guard {
            Some(guard) => Ok(String::from_str(guard)),
            None => {
                let lib_name = match Self::lib_name(env) {
                    Ok(name) => name,
                    Err(e) => {
                        return Err(e);
                    },
                };
                let chars = chars_of(lib_name.as_str());
                let mut guard = String::from_str("__RUST_");
                let ghost stem = Seq::new(lib_name@.len(), |i: int| guard_char(lib_name@[i]));
                let mut i: usize = 0;
                while i < chars.len()
                    invariant
                        i <= chars.len(),
                        chars@ == lib_name@,
                        stem == Seq::new(lib_name@.len(), |i: int| guard_char(lib_name@[i])),
                        guard@ == "__RUST_"@ + stem.take(i as int),
                    decreases chars.len() - i,
                {
                    let c = chars[i];
                    if is_ascii_alphanumeric(c) {
                        guard.push(to_ascii_upper(c));
                    } else {
                        guard.push('_');
                    }
                    proof {
                        assert(stem.take(i + 1) =~= stem.take(i as int).push(stem[i as int]));
                        assert(guard@ =~= "__RUST_"@ + stem.take(i + 1));
                    }
                    i += 1;
                }
                proof {
                    assert(stem.take(chars@.len() as int) =~= stem);
                }
                guard.append("__");
                Ok(guard)
            },
        }
    }

    /// Return the library name
    pub fn lib_name(env: &CargoEnv) -> (result: Result<String, HeaderError>)
        ensures
            result is Err <==> env.lib_name() is None,
            result matches Ok(name) ==> Some(name@) == env.lib_name(),
    {
        match &env.crate_name {
            Some(name) => Ok(name.clone()),
            None => match &env.pkg_name {
                Some(name) => Ok(replace_char(name.as_str(), '-', '_')),
                None => Err(HeaderError::MissingLibraryName),
            },
        }
    }

    /// Return a Pascal Cased (UpperCamelCase) version of the lib name.
    pub fn pascal_cased_lib_name(env: &CargoEnv) -> (result: Result<String, HeaderError>)
        ensures
            result is Err <==> env.lib_name() is None,
            result matches Ok(name) ==> name@ == pascal_cased(env.lib_name().unwrap()),
    {
        let lib_name = match Self::lib_name(env) {
            Ok(name) => name,
            Err(e) => {
                return Err(e);
            },
        };
        let chars = chars_of(lib_name.as_str());
        let mut out = String::new();
        // `true` for PascalCase, `false` for lowerCamelCase.
        let mut underscore = true;
        let mut i: usize = 0;
        proof {
            assert(chars@.skip(0) =~= chars@);
        }
        while i < chars.len()
            invariant
                i <= chars.len(),
                chars@ == lib_name@,
                pascal_cased(lib_name@) == out@ + pascal_from(chars@.skip(i as int), underscore),
            decreases chars.len() - i,
        {
            let c = chars[i];
            let ghost rest = chars@.skip(i as int);
            proof {
                assert(rest.first() == c);
                assert(rest.drop_first() =~= chars@.skip(i + 1));
            }
            let ghost before = out@;
            if underscore {
                underscore = false;
                out.push(to_ascii_upper(c));
                proof {
                    assert(before + (seq![ascii_upper(c)] + pascal_from(rest.drop_first(), false))
                        =~= out@ + pascal_from(rest.drop_first(), false));
                }
            } else if c == '_' {
                underscore = true;
            } else {
                out.push(c);
                proof {
                    assert(before + (seq![c] + pascal_from(rest.drop_first(), false)) =~= out@
                        + pascal_from(rest.drop_first(), false));
                }
            }
            i += 1;
        }
        proof {
            assert(out@ + Seq::<char>::empty() =~= out@);
        }
        Ok(out)
    }
}

} // verus!
